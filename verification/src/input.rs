//! From keys to octets: what each key of the keyboard sends to the remote
//! host.

use vstd::prelude::*;

verus! {

/// The octet that introduces a command to the client itself: Ctrl-^.
pub const MOSH_COMMAND_KEY: u8 = 0x1E;

/// The octet that introduces an escape sequence.
pub const ESCAPE: u8 = 0x1B;

/// A key of the keyboard.
#[derive(Debug, Clone, Copy, PartialEq, Eq, Structural)]
pub enum KeyCode {
    Char(char),
    Enter,
    Backspace,
    Tab,
    BackTab,
    Esc,
    Up,
    Down,
    Right,
    Left,
    Home,
    End,
    PageUp,
    PageDown,
    Insert,
    Delete,
    /// A function key, by its number.
    F(u8),
    /// Any other key.
    Other,
}

/// What happened to a key.
#[derive(Debug, Clone, Copy, PartialEq, Eq, Structural)]
pub enum KeyEventKind {
    Press,
    Repeat,
    Release,
}

/// A key event: the key, the modifiers held, and what happened to it.
#[derive(Debug, Clone, Copy, PartialEq, Eq, Structural)]
pub struct KeyEvent {
    pub code: KeyCode,
    pub control: bool,
    pub alt: bool,
    pub kind: KeyEventKind,
}

/// The control octet that Ctrl with an ASCII character sends: the letters
/// send 1 to 26, and the digits 2 to 8 what the punctuation beside them on
/// a terminal sends.
pub open spec fn spec_ctrl_char(c: u8) -> Option<u8> {
    if 0x61 <= c <= 0x7A {
        Some((c - 0x61 + 1) as u8)
    } else if 0x41 <= c <= 0x5A {
        Some((c - 0x41 + 1) as u8)
    } else if c == 0x20 || c == 0x32 || c == 0x40 {
        Some(0x00)
    } else if c == 0x33 || c == 0x5B {
        Some(0x1B)
    } else if c == 0x34 || c == 0x5C {
        Some(0x1C)
    } else if c == 0x35 || c == 0x5D {
        Some(0x1D)
    } else if c == 0x36 || c == 0x5E {
        Some(0x1E)
    } else if c == 0x37 || c == 0x5F {
        Some(0x1F)
    } else if c == 0x38 || c == 0x3F {
        Some(0x7F)
    } else {
        None
    }
}

/// The control octet that Ctrl with an ASCII character sends.
pub fn encode_ctrl_char(c: u8) -> (octet: Option<u8>)
    ensures
        octet == spec_ctrl_char(c),
{
    if 0x61 <= c && c <= 0x7A {
        Some(c - 0x61 + 1)
    } else if 0x41 <= c && c <= 0x5A {
        Some(c - 0x41 + 1)
    } else if c == 0x20 || c == 0x32 || c == 0x40 {
        Some(0x00)
    } else if c == 0x33 || c == 0x5B {
        Some(0x1B)
    } else if c == 0x34 || c == 0x5C {
        Some(0x1C)
    } else if c == 0x35 || c == 0x5D {
        Some(0x1D)
    } else if c == 0x36 || c == 0x5E {
        Some(0x1E)
    } else if c == 0x37 || c == 0x5F {
        Some(0x1F)
    } else if c == 0x38 || c == 0x3F {
        Some(0x7F)
    } else {
        None
    }
}

/// Calls `char::encode_utf8` and copies the result. The contract claims
/// what the documentation of std says: the octets are the UTF-8 encoding
/// of the character.
#[verifier::external_body]
fn char_utf8(c: char) -> (octets: Vec<u8>)
    ensures
        octets@ == vstd::utf8::encode_utf8(seq![c]),
{
    let mut buf = [0u8; 4];
    c.encode_utf8(&mut buf).as_bytes().to_vec()
}

/// The escape sequence of a function key: the octets after the escape.
pub open spec fn spec_function_key(n: u8) -> Option<Seq<u8>> {
    if n == 1 {
        Some(seq![0x4Fu8, 0x50u8])
    } else if n == 2 {
        Some(seq![0x4Fu8, 0x51u8])
    } else if n == 3 {
        Some(seq![0x4Fu8, 0x52u8])
    } else if n == 4 {
        Some(seq![0x4Fu8, 0x53u8])
    } else if n == 5 {
        Some(seq![0x5Bu8, 0x31u8, 0x35u8, 0x7Eu8])
    } else if n == 6 {
        Some(seq![0x5Bu8, 0x31u8, 0x37u8, 0x7Eu8])
    } else if n == 7 {
        Some(seq![0x5Bu8, 0x31u8, 0x38u8, 0x7Eu8])
    } else if n == 8 {
        Some(seq![0x5Bu8, 0x31u8, 0x39u8, 0x7Eu8])
    } else if n == 9 {
        Some(seq![0x5Bu8, 0x32u8, 0x30u8, 0x7Eu8])
    } else if n == 10 {
        Some(seq![0x5Bu8, 0x32u8, 0x31u8, 0x7Eu8])
    } else if n == 11 {
        Some(seq![0x5Bu8, 0x32u8, 0x33u8, 0x7Eu8])
    } else if n == 12 {
        Some(seq![0x5Bu8, 0x32u8, 0x34u8, 0x7Eu8])
    } else {
        None
    }
}

/// The octets that a key sends by itself, without modifiers.
pub open spec fn spec_plain_key(code: KeyCode) -> Option<Seq<u8>> {
    match code {
        KeyCode::Char(c) => Some(vstd::utf8::encode_utf8(seq![c])),
        KeyCode::Enter => Some(seq![0x0Du8]),
        KeyCode::Backspace => Some(seq![0x7Fu8]),
        KeyCode::Tab => Some(seq![0x09u8]),
        KeyCode::BackTab => Some(seq![0x1Bu8, 0x5Bu8, 0x5Au8]),
        KeyCode::Esc => Some(seq![0x1Bu8]),
        KeyCode::Up => Some(seq![0x1Bu8, 0x4Fu8, 0x41u8]),
        KeyCode::Down => Some(seq![0x1Bu8, 0x4Fu8, 0x42u8]),
        KeyCode::Right => Some(seq![0x1Bu8, 0x4Fu8, 0x43u8]),
        KeyCode::Left => Some(seq![0x1Bu8, 0x4Fu8, 0x44u8]),
        KeyCode::Home => Some(seq![0x1Bu8, 0x4Fu8, 0x48u8]),
        KeyCode::End => Some(seq![0x1Bu8, 0x4Fu8, 0x46u8]),
        KeyCode::PageUp => Some(seq![0x1Bu8, 0x5Bu8, 0x35u8, 0x7Eu8]),
        KeyCode::PageDown => Some(seq![0x1Bu8, 0x5Bu8, 0x36u8, 0x7Eu8]),
        KeyCode::Insert => Some(seq![0x1Bu8, 0x5Bu8, 0x32u8, 0x7Eu8]),
        KeyCode::Delete => Some(seq![0x1Bu8, 0x5Bu8, 0x33u8, 0x7Eu8]),
        KeyCode::F(n) => match spec_function_key(n) {
            Some(rest) => Some(seq![0x1Bu8] + rest),
            None => None,
        },
        KeyCode::Other => None,
    }
}

/// The control octet of a key event, where Ctrl is held with an ASCII
/// character that has one.
pub open spec fn spec_control_key(event: KeyEvent) -> Option<u8> {
    match event.code {
        KeyCode::Char(c) => if event.control && (c as u32) < 128 {
            spec_ctrl_char(c as u8)
        } else {
            None
        },
        _ => None,
    }
}

/// The octets that a key event sends to the remote host; none for a key
/// that is released and for a key without meaning. Ctrl with a character
/// sends its control octet; Alt puts an escape before what is sent, except
/// before the escape key itself.
pub open spec fn spec_key_event_bytes(event: KeyEvent) -> Option<Seq<u8>> {
    if event.kind is Release {
        None
    } else if spec_control_key(event) is Some {
        let ctrl = spec_control_key(event)->Some_0;
        Some(
            if event.alt {
                seq![ESCAPE, ctrl]
            } else {
                seq![ctrl]
            },
        )
    } else {
        match spec_plain_key(event.code) {
            Some(out) => Some(
                if event.alt && !(event.code is Esc) {
                    seq![ESCAPE] + out
                } else {
                    out
                },
            ),
            None => None,
        }
    }
}

/// A list of octets from a slice.
fn octets(list: &[u8]) -> (out: Vec<u8>)
    ensures
        out@ == list@,
{
    crate::bytes::clone_bytes(list)
}

/// The octets that a key sends by itself, without modifiers.
pub fn plain_key(code: KeyCode) -> (out: Option<Vec<u8>>)
    ensures
        match out {
            Some(v) => spec_plain_key(code) == Some(v@),
            None => spec_plain_key(code).is_none(),
        },
{
    let out: Vec<u8> = match code {
        KeyCode::Char(c) => char_utf8(c),
        KeyCode::Enter => octets(&[0x0D]),
        KeyCode::Backspace => octets(&[0x7F]),
        KeyCode::Tab => octets(&[0x09]),
        KeyCode::BackTab => octets(&[0x1B, 0x5B, 0x5A]),
        KeyCode::Esc => octets(&[0x1B]),
        KeyCode::Up => octets(&[0x1B, 0x4F, 0x41]),
        KeyCode::Down => octets(&[0x1B, 0x4F, 0x42]),
        KeyCode::Right => octets(&[0x1B, 0x4F, 0x43]),
        KeyCode::Left => octets(&[0x1B, 0x4F, 0x44]),
        KeyCode::Home => octets(&[0x1B, 0x4F, 0x48]),
        KeyCode::End => octets(&[0x1B, 0x4F, 0x46]),
        KeyCode::PageUp => octets(&[0x1B, 0x5B, 0x35, 0x7E]),
        KeyCode::PageDown => octets(&[0x1B, 0x5B, 0x36, 0x7E]),
        KeyCode::Insert => octets(&[0x1B, 0x5B, 0x32, 0x7E]),
        KeyCode::Delete => octets(&[0x1B, 0x5B, 0x33, 0x7E]),
        KeyCode::F(n) => {
            if n == 1 {
                octets(&[0x1B, 0x4F, 0x50])
            } else if n == 2 {
                octets(&[0x1B, 0x4F, 0x51])
            } else if n == 3 {
                octets(&[0x1B, 0x4F, 0x52])
            } else if n == 4 {
                octets(&[0x1B, 0x4F, 0x53])
            } else if n == 5 {
                octets(&[0x1B, 0x5B, 0x31, 0x35, 0x7E])
            } else if n == 6 {
                octets(&[0x1B, 0x5B, 0x31, 0x37, 0x7E])
            } else if n == 7 {
                octets(&[0x1B, 0x5B, 0x31, 0x38, 0x7E])
            } else if n == 8 {
                octets(&[0x1B, 0x5B, 0x31, 0x39, 0x7E])
            } else if n == 9 {
                octets(&[0x1B, 0x5B, 0x32, 0x30, 0x7E])
            } else if n == 10 {
                octets(&[0x1B, 0x5B, 0x32, 0x31, 0x7E])
            } else if n == 11 {
                octets(&[0x1B, 0x5B, 0x32, 0x33, 0x7E])
            } else if n == 12 {
                octets(&[0x1B, 0x5B, 0x32, 0x34, 0x7E])
            } else {
                return None;
            }
        },
        KeyCode::Other => {
            return None;
        },
    };
    proof {
        match spec_plain_key(code) {
            Some(want) => {
                assert(out@ =~= want);
            },
            None => {},
        }
    }
    Some(out)
}

/// The octets that a key event sends to the remote host.
pub fn handle_key_event(event: &KeyEvent) -> (out: Option<Vec<u8>>)
    ensures
        match out {
            Some(v) => spec_key_event_bytes(*event) == Some(v@),
            None => spec_key_event_bytes(*event).is_none(),
        },
{
    match event.kind {
        KeyEventKind::Release => {
            return None;
        },
        _ => {},
    }
    if event.control {
        match event.code {
            KeyCode::Char(c) => {
                if (c as u32) < 128 {
                    match encode_ctrl_char(c as u8) {
                        Some(ctrl) => {
                            let mut out: Vec<u8> = Vec::new();
                            if event.alt {
                                out.push(ESCAPE);
                            }
                            out.push(ctrl);
                            proof {
                                if event.alt {
                                    assert(out@ =~= seq![ESCAPE, ctrl]);
                                } else {
                                    assert(out@ =~= seq![ctrl]);
                                }
                            }
                            return Some(out);
                        },
                        None => {},
                    }
                }
            },
            _ => {},
        }
    }
    let plain = match plain_key(event.code) {
        Some(p) => p,
        None => {
            return None;
        },
    };
    let is_esc = match event.code {
        KeyCode::Esc => true,
        _ => false,
    };
    if event.alt && !is_esc {
        let mut out: Vec<u8> = Vec::new();
        out.push(ESCAPE);
        crate::bytes::extend_bytes(&mut out, plain.as_slice());
        assert(out@ =~= seq![ESCAPE] + plain@);
        Some(out)
    } else {
        Some(plain)
    }
}

/// Whether a key event is the command key: Ctrl with 6 or ^.
pub open spec fn spec_is_command_key(event: KeyEvent) -> bool {
    event.control && (event.code == KeyCode::Char('6') || event.code == KeyCode::Char('^'))
}

/// Whether a key event is the command key.
pub fn is_command_key(event: &KeyEvent) -> (yes: bool)
    ensures
        yes == spec_is_command_key(*event),
{
    if !event.control {
        return false;
    }
    match event.code {
        KeyCode::Char(c) => c == '6' || c == '^',
        _ => false,
    }
}

} // verus!
