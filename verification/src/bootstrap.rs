//! What the bootstrap hands over: the line in which the server announces
//! its port and key, and the user and host named on the command line.

use crate::bytes::{copy_range, utf8_string};
use vstd::prelude::*;
use vstd::string::StringSliceAdditionalSpecFns;

verus! {

/// Why the output of the server holds no announcement.
#[derive(Debug, Clone, Copy, PartialEq, Eq, Structural)]
pub enum BootstrapError {
    /// No line announces a port and a key.
    NoConnectLine,
    /// The announced port is not a number from 0 to 65535.
    InvalidPort,
}

/// Whether an octet is ASCII white space.
pub open spec fn spec_is_space(b: u8) -> bool {
    b == 0x20 || (0x09 <= b <= 0x0D)
}

/// The first index from `i` on, before `end`, at which `marks(s[j])` holds
/// or not, as `wanted` says; `end` where there is none.
pub open spec fn spec_scan(s: Seq<u8>, i: int, end: int, spaces: bool) -> int
    decreases end - i,
{
    if i < end && 0 <= i < s.len() && spec_is_space(s[i]) == spaces {
        spec_scan(s, i + 1, end, spaces)
    } else if i < end {
        i
    } else {
        end
    }
}

/// The index of the first line feed from `i` on; the length where there is
/// none.
pub open spec fn spec_line_end(s: Seq<u8>, i: int) -> int
    decreases s.len() - i,
{
    if 0 <= i < s.len() && s[i] != 0x0A {
        spec_line_end(s, i + 1)
    } else if i < s.len() {
        i
    } else {
        s.len() as int
    }
}

/// The words that begin an announcement, with the space after them.
pub open spec fn spec_connect_prefix() -> Seq<u8> {
    seq![
        0x4Du8,
        0x4Fu8,
        0x53u8,
        0x48u8,
        0x20u8,
        0x43u8,
        0x4Fu8,
        0x4Eu8,
        0x4Eu8,
        0x45u8,
        0x43u8,
        0x54u8,
        0x20u8,
    ]
}

/// The number that decimal digits stand for, after an optional plus sign;
/// none for no digits, for anything but digits, and for a number over
/// 65535.
pub open spec fn spec_parse_port(word: Seq<u8>) -> Option<u16> {
    let digits = if word.len() > 0 && word[0] == 0x2B {
        word.drop_first()
    } else {
        word
    };
    if digits.len() == 0 {
        None
    } else {
        spec_digits_value(digits, digits.len())
    }
}

/// The number that the first `n` of `digits` stand for.
pub open spec fn spec_digits_value(digits: Seq<u8>, n: nat) -> Option<u16>
    decreases n,
{
    if n == 0 {
        Some(0)
    } else {
        match spec_digits_value(digits, (n - 1) as nat) {
            Some(v) => {
                let d = digits[n - 1];
                if 0x30 <= d <= 0x39 && v * 10 + (d - 0x30) <= u16::MAX {
                    Some((v * 10 + (d - 0x30)) as u16)
                } else {
                    None
                }
            },
            None => None,
        }
    }
}

/// Where the third and fourth word of a line begin and end, if the line,
/// without the white space around it, begins with `MOSH CONNECT ` and has
/// four words: the port and the key of an announcement.
pub open spec fn spec_connect_words(s: Seq<u8>, start: int, end: int) -> Option<
    (int, int, int, int),
> {
    let a = spec_scan(s, start, end, true);
    if a + 13 <= end && s.subrange(a, a + 13) == spec_connect_prefix() {
        let port_at = spec_scan(s, a + 13, end, true);
        let port_end = spec_scan(s, port_at, end, false);
        let key_at = spec_scan(s, port_end, end, true);
        let key_end = spec_scan(s, key_at, end, false);
        if port_at < end && key_at < end {
            Some((port_at, port_end, key_at, key_end))
        } else {
            None
        }
    } else {
        None
    }
}

/// What the lines from index `i` on announce: the port and key of the
/// first line that is an announcement.
pub open spec fn spec_mosh_connect_from(s: Seq<u8>, i: int) -> Result<
    (u16, Seq<u8>),
    BootstrapError,
>
    decreases s.len() - i,
{
    if i < 0 || i >= s.len() {
        Err(BootstrapError::NoConnectLine)
    } else {
        let end = spec_line_end(s, i);
        match spec_connect_words(s, i, end) {
            Some((port_at, port_end, key_at, key_end)) => match spec_parse_port(
                s.subrange(port_at, port_end),
            ) {
                Some(port) => Ok((port, s.subrange(key_at, key_end))),
                None => Err(BootstrapError::InvalidPort),
            },
            None => if i <= end < s.len() {
                spec_mosh_connect_from(s, end + 1)
            } else {
                Err(BootstrapError::NoConnectLine)
            },
        }
    }
}

/// What the output of the server announces.
pub open spec fn spec_mosh_connect(s: Seq<u8>) -> Result<(u16, Seq<u8>), BootstrapError> {
    spec_mosh_connect_from(s, 0)
}

/// The first index from `i` on, before `end`, that holds white space or,
/// with `spaces`, that holds none.
fn scan(s: &[u8], i: usize, end: usize, spaces: bool) -> (at: usize)
    requires
        i <= end <= s@.len(),
    ensures
        at == spec_scan(s@, i as int, end as int, spaces),
        i <= at <= end,
{
    let mut at: usize = i;
    while at < end && is_space(s[at]) == spaces
        invariant
            i <= at <= end <= s@.len(),
            spec_scan(s@, i as int, end as int, spaces) == spec_scan(
                s@,
                at as int,
                end as int,
                spaces,
            ),
        decreases end - at,
    {
        at = at + 1;
    }
    at
}

/// Whether an octet is ASCII white space.
pub fn is_space(b: u8) -> (space: bool)
    ensures
        space == spec_is_space(b),
{
    b == 0x20 || (0x09 <= b && b <= 0x0D)
}

/// The index of the first line feed from `i` on.
fn line_end(s: &[u8], i: usize) -> (at: usize)
    requires
        i <= s@.len(),
    ensures
        at == spec_line_end(s@, i as int),
        i <= at <= s@.len(),
{
    let mut at: usize = i;
    while at < s.len() && s[at] != 0x0A
        invariant
            i <= at <= s@.len(),
            spec_line_end(s@, i as int) == spec_line_end(s@, at as int),
        decreases s@.len() - at,
    {
        at = at + 1;
    }
    at
}

/// Reads a port number.
pub fn parse_port(word: &[u8]) -> (port: Option<u16>)
    ensures
        port == spec_parse_port(word@),
{
    let from: usize = if word.len() > 0 && word[0] == 0x2B {
        1
    } else {
        0
    };
    let ghost digits = if from == 1 {
        word@.drop_first()
    } else {
        word@
    };
    if from == word.len() {
        return None;
    }
    let mut value: u16 = 0;
    let mut i: usize = from;
    let mut failed = false;
    while i < word.len()
        invariant
            from <= i <= word@.len(),
            digits.len() == word@.len() - from,
            forall|k: int| 0 <= k < digits.len() ==> digits[k] == word@[k + from],
            spec_digits_value(digits, (i - from) as nat) == if failed {
                None
            } else {
                Some(value)
            },
        decreases word@.len() - i,
    {
        let d = word[i];
        assert(digits[i - from] == d);
        if !failed {
            if 0x30 <= d && d <= 0x39 && (value as u32) * 10 + ((d - 0x30) as u32) <= 0xFFFF {
                value = value * 10 + (d - 0x30) as u16;
            } else {
                failed = true;
            }
        }
        i = i + 1;
    }
    if failed {
        None
    } else {
        Some(value)
    }
}

/// Whether `s[at..at + 13]` is `MOSH CONNECT `.
fn has_connect_prefix(s: &[u8], at: usize, end: usize) -> (yes: bool)
    requires
        at <= end <= s@.len(),
    ensures
        yes == (at + 13 <= end && s@.subrange(at as int, at + 13) == spec_connect_prefix()),
{
    if end - at < 13 {
        return false;
    }
    let prefix: [u8; 13] = [
        0x4D,
        0x4F,
        0x53,
        0x48,
        0x20,
        0x43,
        0x4F,
        0x4E,
        0x4E,
        0x45,
        0x43,
        0x54,
        0x20,
    ];
    assert(prefix@ =~= spec_connect_prefix());
    let mut k: usize = 0;
    while k < 13
        invariant
            k <= 13,
            at + 13 <= end <= s@.len(),
            prefix@ == spec_connect_prefix(),
            forall|j: int| 0 <= j < k ==> s@[at + j] == prefix@[j],
        decreases 13 - k,
    {
        if s[at + k] != prefix[k] {
            assert(s@.subrange(at as int, at + 13)[k as int] != spec_connect_prefix()[k as int]);
            return false;
        }
        k = k + 1;
    }
    assert(s@.subrange(at as int, at + 13) =~= spec_connect_prefix());
    true
}

/// Whether `found` gives what `announced` holds: the same port and the key
/// as text, or the same error. An announcement whose key is not valid
/// UTF-8, which no text holds, counts as none.
pub open spec fn spec_announced(
    announced: Result<(u16, Seq<u8>), BootstrapError>,
    found: Result<(u16, String), BootstrapError>,
) -> bool {
    match announced {
        Ok((port, key)) => if vstd::utf8::valid_utf8(key) {
            found is Ok && found->Ok_0.0 == port && found->Ok_0.1@ == vstd::utf8::decode_utf8(key)
        } else {
            found == Err::<(u16, String), BootstrapError>(BootstrapError::NoConnectLine)
        },
        Err(e) => found == Err::<(u16, String), BootstrapError>(e),
    }
}

/// Finds the announcement of the server in its output: the port and the
/// key of the first line that, without the white space around it, begins
/// with `MOSH CONNECT ` and goes on with two words at least. A port that
/// is no number from 0 to 65535 is an error; later lines are not looked
/// at then.
pub fn parse_mosh_connect(output: &str) -> (found: Result<(u16, String), BootstrapError>)
    ensures
        spec_announced(spec_mosh_connect(output.spec_bytes()), found),
{
    let s = output.as_bytes();
    let mut i: usize = 0;
    while i < s.len()
        invariant
            i <= s@.len(),
            s@ == output.spec_bytes(),
            spec_mosh_connect(s@) == spec_mosh_connect_from(s@, i as int),
        decreases s@.len() - i,
    {
        let end = line_end(s, i);
        let a = scan(s, i, end, true);
        if has_connect_prefix(s, a, end) {
            let port_at = scan(s, a + 13, end, true);
            let port_end = scan(s, port_at, end, false);
            let key_at = scan(s, port_end, end, true);
            let key_end = scan(s, key_at, end, false);
            if port_at < end && key_at < end {
                let word = copy_range(s, port_at, port_end);
                let port = match parse_port(word.as_slice()) {
                    Some(p) => p,
                    None => {
                        return Err(BootstrapError::InvalidPort);
                    },
                };
                let key_octets = copy_range(s, key_at, key_end);
                return match utf8_string(key_octets.as_slice()) {
                    Some(key) => Ok((port, key)),
                    None => Err(BootstrapError::NoConnectLine),
                };
            }
        }
        if end >= s.len() {
            return Err(BootstrapError::NoConnectLine);
        }
        i = end + 1;
    }
    Err(BootstrapError::NoConnectLine)
}

/// The index of the first `@` in a name, if there is one.
pub open spec fn spec_find_at(s: Seq<u8>, i: int) -> int
    decreases s.len() - i,
{
    if 0 <= i < s.len() && s[i] != 0x40 {
        spec_find_at(s, i + 1)
    } else if i < s.len() {
        i
    } else {
        s.len() as int
    }
}

/// The user and the host that `[user@]host` names: what stands before and
/// after the first `@`, or no user and the whole where there is none.
pub fn split_user_host(input: &str) -> (parts: (Option<Vec<u8>>, Vec<u8>))
    ensures
        ({
            let s = input.spec_bytes();
            let at = spec_find_at(s, 0);
            if at < s.len() {
                parts.0 matches Some(user) && user@ == s.subrange(0, at) && parts.1@ == s.subrange(
                    at + 1,
                    s.len() as int,
                )
            } else {
                parts.0 is None && parts.1@ == s
            }
        }),
{
    let s = input.as_bytes();
    let mut at: usize = 0;
    while at < s.len() && s[at] != 0x40
        invariant
            at <= s@.len(),
            spec_find_at(s@, 0) == spec_find_at(s@, at as int),
        decreases s@.len() - at,
    {
        at = at + 1;
    }
    if at < s.len() {
        (Some(copy_range(s, 0, at)), copy_range(s, at + 1, s.len()))
    } else {
        (None, crate::bytes::clone_bytes(s))
    }
}

} // verus!
