//! Keys as the library sees them, and the bytes a key sends to a shell.
use vstd::prelude::*;

verus! {

/// A key that was pressed.
#[derive(Debug, Clone, Copy, PartialEq, Eq, Structural)]
pub enum KeyCode {
    Char(char),
    Enter,
    Backspace,
    Delete,
    Tab,
    BackTab,
    Esc,
    Up,
    Down,
    Left,
    Right,
    Home,
    End,
    PageUp,
    PageDown,
    Insert,
    F(u8),
    /// Any other key.
    Other,
}

/// The modifier keys held with a key, as bits: shift 1, control 2, alt 4, super 8,
/// hyper 16, meta 32.
#[derive(Debug, Clone, Copy, PartialEq, Eq, Structural)]
pub struct KeyModifiers {
    pub bits: u8,
}

/// Whether every modifier in `needed` is held in `held`.
pub open spec fn holds(held: KeyModifiers, needed: KeyModifiers) -> bool {
    held.bits & needed.bits == needed.bits
}

/// The control modifier alone.
pub open spec fn control_bits() -> KeyModifiers {
    KeyModifiers { bits: 2 }
}

impl KeyModifiers {
    /// No modifier.
    pub fn empty() -> (r: Self)
        ensures
            r.bits == 0,
    {
        KeyModifiers { bits: 0 }
    }

    /// The control modifier.
    pub fn control() -> (r: Self)
        ensures
            r == control_bits(),
    {
        KeyModifiers { bits: 2 }
    }

    /// Whether every modifier in `other` is held in `self`.
    pub fn contains(&self, other: KeyModifiers) -> (r: bool)
        ensures
            r == holds(*self, other),
    {
        self.bits & other.bits == other.bits
    }
}

/// `c` with `a`–`z` made upper case, as a code point.
pub open spec fn ascii_upper(c: char) -> u32 {
    if 97 <= (c as u32) <= 122 {
        (c as u32 - 32) as u32
    } else {
        c as u32
    }
}

/// The bytes a key sends to the shell, if it sends any: control-letters (and the other
/// characters from `@` to `_`) send their control code, characters their UTF-8 encoding,
/// and the editing and arrow keys their usual terminal sequences.
pub open spec fn key_bytes(code: KeyCode, modifiers: KeyModifiers) -> Option<Seq<u8>> {
    match code {
        KeyCode::Char(c) => if holds(modifiers, control_bits()) {
            let b = ascii_upper(c) as u8;
            if b < 0x80 && 0x40 <= b <= 0x5F {
                Some(seq![b & 0x1f])
            } else {
                None
            }
        } else {
            Some(vstd::utf8::encode_scalar(c as u32))
        },
        KeyCode::Enter => Some(seq![13u8]),
        KeyCode::Backspace => Some(seq![0x7fu8]),
        KeyCode::Delete => Some(seq![0x1bu8, 0x5bu8, 0x33u8, 0x7eu8]),
        KeyCode::Tab => Some(seq![9u8]),
        KeyCode::Esc => Some(seq![0x1bu8]),
        KeyCode::Up => Some(seq![0x1bu8, 0x5bu8, 0x41u8]),
        KeyCode::Down => Some(seq![0x1bu8, 0x5bu8, 0x42u8]),
        KeyCode::Right => Some(seq![0x1bu8, 0x5bu8, 0x43u8]),
        KeyCode::Left => Some(seq![0x1bu8, 0x5bu8, 0x44u8]),
        _ => None,
    }
}

/// The UTF-8 encoding of `c`.
pub fn encode_char(c: char) -> (r: Vec<u8>)
    ensures
        r@ == vstd::utf8::encode_scalar(c as u32),
{
    let v: u32 = c as u32;
    let mut out: Vec<u8> = Vec::new();
    if v <= 0x7F {
        out.push((v & 0x7F) as u8);
    } else if v <= 0x7FF {
        out.push(0xC0 | ((v >> 6) & 0x1F) as u8);
        out.push(0x80 | (v & 0x3F) as u8);
    } else if v <= 0xFFFF && !(0xD800 <= v && v <= 0xDFFF) {
        out.push(0xE0 | ((v >> 12) & 0x0F) as u8);
        out.push(0x80 | ((v >> 6) & 0x3F) as u8);
        out.push(0x80 | (v & 0x3F) as u8);
    } else {
        out.push(0xF0 | ((v >> 18) & 0x7) as u8);
        out.push(0x80 | ((v >> 12) & 0x3F) as u8);
        out.push(0x80 | ((v >> 6) & 0x3F) as u8);
        out.push(0x80 | (v & 0x3F) as u8);
    }
    proof {
        assert(out@ =~= vstd::utf8::encode_scalar(v));
    }
    out
}

fn bytes_of(b: &[u8]) -> (r: Vec<u8>)
    ensures
        r@ == b@,
{
    let mut out: Vec<u8> = Vec::new();
    let mut i: usize = 0;
    while i < b.len()
        invariant
            0 <= i <= b.len(),
            out@ == b@.subrange(0, i as int),
        decreases b.len() - i,
    {
        out.push(b[i]);
        i = i + 1;
        assert(out@ =~= b@.subrange(0, i as int));
    }
    assert(b@.subrange(0, b.len() as int) =~= b@);
    out
}

/// The bytes a key sends to the shell, if any (see `key_bytes`).
pub fn key_to_bytes(code: KeyCode, modifiers: KeyModifiers) -> (r: Option<Vec<u8>>)
    ensures
        r is None <==> key_bytes(code, modifiers) is None,
        r matches Some(v) ==> key_bytes(code, modifiers) == Some(v@),
{
    match code {
        KeyCode::Char(c) => {
            if modifiers.contains(KeyModifiers::control()) {
                let u: u32 = c as u32;
                let up: u32 = if 97 <= u && u <= 122 {
                    u - 32
                } else {
                    u
                };
                let b: u8 = up as u8;
                if b < 0x80 && 0x40 <= b && b <= 0x5F {
                    let mut v: Vec<u8> = Vec::new();
                    v.push(b & 0x1f);
                    assert(v@ =~= seq![b & 0x1f]);
                    Some(v)
                } else {
                    None
                }
            } else {
                Some(encode_char(c))
            }
        },
        KeyCode::Enter => Some(bytes_of(&[13u8])),
        KeyCode::Backspace => Some(bytes_of(&[0x7fu8])),
        KeyCode::Delete => Some(bytes_of(&[0x1bu8, 0x5bu8, 0x33u8, 0x7eu8])),
        KeyCode::Tab => Some(bytes_of(&[9u8])),
        KeyCode::Esc => Some(bytes_of(&[0x1bu8])),
        KeyCode::Up => Some(bytes_of(&[0x1bu8, 0x5bu8, 0x41u8])),
        KeyCode::Down => Some(bytes_of(&[0x1bu8, 0x5bu8, 0x42u8])),
        KeyCode::Right => Some(bytes_of(&[0x1bu8, 0x5bu8, 0x43u8])),
        KeyCode::Left => Some(bytes_of(&[0x1bu8, 0x5bu8, 0x44u8])),
        _ => None,
    }
}

/// The bytes a paste sends to the shell: the text's UTF-8 encoding, wrapped in
/// `ESC [200~` … `ESC [201~` when the shell asked for bracketed paste.
pub open spec fn paste_seq(text: Seq<char>, bracketed: bool) -> Seq<u8> {
    if bracketed {
        seq![0x1bu8, 0x5bu8, 0x32u8, 0x30u8, 0x30u8, 0x7eu8] + vstd::utf8::encode_utf8(text) + seq![
            0x1bu8,
            0x5bu8,
            0x32u8,
            0x30u8,
            0x31u8,
            0x7eu8,
        ]
    } else {
        vstd::utf8::encode_utf8(text)
    }
}

fn push_all(out: &mut Vec<u8>, b: &[u8])
    ensures
        final(out)@ == old(out)@ + b@,
{
    let ghost start = out@;
    let mut i: usize = 0;
    while i < b.len()
        invariant
            0 <= i <= b.len(),
            out@ == start + b@.subrange(0, i as int),
        decreases b.len() - i,
    {
        out.push(b[i]);
        i = i + 1;
        assert(out@ =~= start + b@.subrange(0, i as int));
    }
    assert(b@.subrange(0, b.len() as int) =~= b@);
}

/// The bytes a paste of `text` sends to the shell (see `paste_seq`).
pub fn paste_bytes(text: &str, bracketed: bool) -> (r: Vec<u8>)
    ensures
        r@ == paste_seq(text@, bracketed),
{
    let mut v: Vec<u8> = Vec::new();
    if bracketed {
        push_all(&mut v, &[0x1bu8, 0x5bu8, 0x32u8, 0x30u8, 0x30u8, 0x7eu8]);
        push_all(&mut v, text.as_bytes());
        push_all(&mut v, &[0x1bu8, 0x5bu8, 0x32u8, 0x30u8, 0x31u8, 0x7eu8]);
    } else {
        push_all(&mut v, text.as_bytes());
    }
    assert(v@ =~= paste_seq(text@, bracketed));
    v
}

} // verus!
