//! How the other side reads what is sent to it.
//!
//! The readers here take messages apart as the protocols say. They know nothing
//! of how the messages are written, so that the laws can say what a message
//! means: what a proxy that reads it finds in it.

use crate::text;
use vstd::prelude::*;

verus! {

// ---------------------------------------------------------------------------
// Base64
// ---------------------------------------------------------------------------

/// The six bits that a character of the standard Base64 alphabet stands for.
pub open spec fn six_bits(c: char) -> Option<int> {
    if 'A' <= c <= 'Z' {
        Some(c as int - 'A' as int)
    } else if 'a' <= c <= 'z' {
        Some(c as int - 'a' as int + 26)
    } else if '0' <= c <= '9' {
        Some(c as int - '0' as int + 52)
    } else if c == '+' {
        Some(62int)
    } else if c == '/' {
        Some(63int)
    } else {
        None
    }
}

/// The bytes that a group of four characters holds, as one number of 24 bits
/// and how many bytes count of it. Bits that do not count must be zero.
#[verifier::opaque]
pub open spec fn base64_group(group: Seq<char>) -> Option<Seq<u8>> {
    match (six_bits(group[0]), six_bits(group[1]), six_bits(group[2]), six_bits(group[3])) {
        (Some(a), Some(b), Some(c), Some(d)) => {
            let bits = ((a * 64 + b) * 64 + c) * 64 + d;
            Some(seq![(bits / 65536) as u8, (bits / 256 % 256) as u8, (bits % 256) as u8])
        },
        (Some(a), Some(b), Some(c), None) => {
            let bits = (a * 64 + b) * 64 + c;
            if group[3] == '=' && bits % 4 == 0 {
                Some(seq![(bits / 1024) as u8, (bits / 4 % 256) as u8])
            } else {
                None
            }
        },
        (Some(a), Some(b), None, None) => {
            let bits = a * 64 + b;
            if group[2] == '=' && group[3] == '=' && bits % 16 == 0 {
                Some(seq![(bits / 16) as u8])
            } else {
                None
            }
        },
        _ => None,
    }
}

/// The data that Base64 text holds. Padding is allowed in the last group only.
pub open spec fn base64_data(text: Seq<char>) -> Option<Seq<u8>>
    decreases text.len(),
{
    if text.len() == 0 {
        Some(seq![])
    } else if text.len() < 4 {
        None
    } else {
        match (base64_group(text.take(4)), base64_data(text.skip(4))) {
            (Some(group), Some(later)) => if later.len() == 0 || group.len() == 3 {
                Some(group + later)
            } else {
                None
            },
            _ => None,
        }
    }
}

// ---------------------------------------------------------------------------
// HTTP
// ---------------------------------------------------------------------------

/// Where the first line ending stands in `text`; its length if there is none.
pub open spec fn line_end(text: Seq<char>) -> int
    decreases text.len(),
{
    if text.len() < 2 {
        text.len() as int
    } else if text[0] == '\r' && text[1] == '\n' {
        0
    } else {
        1 + line_end(text.drop_first())
    }
}

/// The lines of a header section, up to the empty line that ends it; nothing if
/// that line is missing or something follows it.
pub open spec fn section_lines(text: Seq<char>) -> Option<Seq<Seq<char>>>
    decreases text.len(),
{
    let end = line_end(text);
    if !(0 <= end <= text.len() - 2) {
        None
    } else if end == 0 {
        if text.len() == 2 {
            Some(seq![])
        } else {
            None
        }
    } else {
        match section_lines(text.skip(end + 2)) {
            Some(later) => Some(seq![text.take(end)] + later),
            None => None,
        }
    }
}

/// The value of the header `name` among `lines`.
pub open spec fn header(lines: Seq<Seq<char>>, name: Seq<char>) -> Option<Seq<char>>
    decreases lines.len(),
{
    let start = name + seq![':', ' '];
    if lines.len() == 0 {
        None
    } else if start.is_prefix_of(lines[0]) {
        Some(lines[0].skip(start.len() as int))
    } else {
        header(lines.drop_first(), name)
    }
}

/// Where the last `mark` stands in `text`; -1 if there is none.
pub open spec fn last_position(text: Seq<char>, mark: char) -> int
    decreases text.len(),
{
    if text.len() == 0 {
        -1
    } else if text.last() == mark {
        text.len() - 1
    } else {
        last_position(text.drop_last(), mark)
    }
}

/// The host and the port that a target names: the number after its last colon,
/// and what stands before that colon.
pub open spec fn host_and_port(target: Seq<char>) -> Option<(Seq<char>, u16)> {
    let at = last_position(target, ':');
    if at < 0 {
        None
    } else {
        match text::number16(target.skip(at + 1)) {
            Some(port) => Some((target.take(at), port)),
            None => None,
        }
    }
}

// ---------------------------------------------------------------------------
// SOCKS5
// ---------------------------------------------------------------------------

/// The methods that a greeting offers: version five, how many there are, and
/// the methods themselves.
pub open spec fn methods_offered(message: Seq<u8>) -> Option<Seq<u8>> {
    if message.len() >= 2 && message[0] == 5 && message.len() == 2 + message[1] {
        Some(message.skip(2))
    } else {
        None
    }
}

/// The username and the password that a message of version one carries, each
/// after its length.
pub open spec fn credentials_carried(message: Seq<u8>) -> Option<(Seq<u8>, Seq<u8>)> {
    if message.len() < 2 || message[0] != 1 {
        None
    } else {
        let user = message[1] as int;
        if message.len() < 3 + user || message.len() != 3 + user + message[2 + user] {
            None
        } else {
            Some((message.subrange(2, 2 + user), message.skip(3 + user)))
        }
    }
}

/// The domain name and the port that a request of version five asks to connect
/// to: the command is one, the address is of type three, its length stands
/// before it, and the port follows with the high byte first.
pub open spec fn destination(message: Seq<u8>) -> Option<(Seq<u8>, int)> {
    if message.len() < 5 || message[0] != 5 || message[1] != 1 || message[2] != 0 || message[3]
        != 3 || message.len() != 7 + message[4] {
        None
    } else {
        let end = 5 + message[4];
        Some((message.subrange(5, end), message[end] * 256 + message[end + 1]))
    }
}

} // verus!
