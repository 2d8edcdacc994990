//! The session configuration and the command-line value codecs.
//!
//! Argument iteration itself is I/O-adjacent plumbing and lives with the
//! program around this crate; what is verified here is the configuration
//! type it produces and the two value codecs whose behaviour matters: the
//! binary-or-hex number syntax of the reset options, and port-name
//! normalization.

use vstd::prelude::*;
use crate::reset::ResetSequence;

verus! {

/// Everything a session needs from the command line.
#[derive(Debug, Clone)]
pub struct CmdConfig {
    /// Normalized serial port name.
    pub port: String,
    /// Baud rate for the initial exchange.
    pub baud_init: u32,
    /// Baud rate requested for the upload proper.
    pub baud_main: u32,
    /// The firmware image file; absent in info-only and erase-only modes.
    pub firmware_path: Option<String>,
    /// Query device information and stop.
    pub info_only: bool,
    /// Erase the flash and stop.
    pub erase_only: bool,
    /// Do not overlap WRITE frames with erase progress.
    pub no_prewrite: bool,
    /// Optional pre-session GPIO reset sequence.
    pub reset: Option<ResetSequence>,
}

/// The value of one binary digit, if it is one.
pub open spec fn bin_digit(c: char) -> Option<u32> {
    if c == '0' {
        Some(0u32)
    } else if c == '1' {
        Some(1u32)
    } else {
        None
    }
}

/// Folds binary digits into `acc` MSB-first; any other character fails.
/// Digits beyond 32 shift out of the accumulator silently.
pub open spec fn spec_bin_parse(s: Seq<char>, acc: u32) -> Option<u32>
    decreases s.len(),
{
    if s.len() == 0 {
        Some(acc)
    } else {
        match bin_digit(s[0]) {
            Some(d) => spec_bin_parse(s.skip(1), (acc << 1) | d),
            None => None,
        }
    }
}

/// The value of one hex digit, if it is one (either case).
pub open spec fn hex_digit(c: char) -> Option<u32> {
    if c == '0' {
        Some(0u32)
    } else if c == '1' {
        Some(1u32)
    } else if c == '2' {
        Some(2u32)
    } else if c == '3' {
        Some(3u32)
    } else if c == '4' {
        Some(4u32)
    } else if c == '5' {
        Some(5u32)
    } else if c == '6' {
        Some(6u32)
    } else if c == '7' {
        Some(7u32)
    } else if c == '8' {
        Some(8u32)
    } else if c == '9' {
        Some(9u32)
    } else if c == 'a' || c == 'A' {
        Some(10u32)
    } else if c == 'b' || c == 'B' {
        Some(11u32)
    } else if c == 'c' || c == 'C' {
        Some(12u32)
    } else if c == 'd' || c == 'D' {
        Some(13u32)
    } else if c == 'e' || c == 'E' {
        Some(14u32)
    } else if c == 'f' || c == 'F' {
        Some(15u32)
    } else {
        None
    }
}

/// Folds hex digits into `acc`; a non-digit or a value that would no longer
/// fit 32 bits fails.
pub open spec fn spec_hex_parse(s: Seq<char>, acc: u32) -> Option<u32>
    decreases s.len(),
{
    if s.len() == 0 {
        Some(acc)
    } else {
        match hex_digit(s[0]) {
            Some(d) => if acc > 0x0FFF_FFFF {
                None
            } else {
                spec_hex_parse(s.skip(1), (acc * 16 + d) as u32)
            },
            None => None,
        }
    }
}

/// The reset-option number syntax: `0b` opens a binary literal, `0x` a hex
/// one, anything else is read as bare hex; an empty digit string fails.
pub open spec fn spec_parse_bin_or_hex(s: Seq<char>) -> Option<u32> {
    if s.len() >= 2 && s[0] == '0' && (s[1] == 'b' || s[1] == 'B') {
        if s.len() == 2 {
            None
        } else {
            spec_bin_parse(s.skip(2), 0)
        }
    } else if s.len() >= 2 && s[0] == '0' && (s[1] == 'x' || s[1] == 'X') {
        if s.len() == 2 {
            None
        } else {
            spec_hex_parse(s.skip(2), 0)
        }
    } else if s.len() == 0 {
        None
    } else {
        spec_hex_parse(s, 0)
    }
}

fn bin_digit_of(c: char) -> (r: Option<u32>)
    ensures
        r == bin_digit(c),
{
    if c == '0' {
        Some(0)
    } else if c == '1' {
        Some(1)
    } else {
        None
    }
}

fn hex_digit_of(c: char) -> (r: Option<u32>)
    ensures
        r == hex_digit(c),
{
    if c == '0' {
        Some(0)
    } else if c == '1' {
        Some(1)
    } else if c == '2' {
        Some(2)
    } else if c == '3' {
        Some(3)
    } else if c == '4' {
        Some(4)
    } else if c == '5' {
        Some(5)
    } else if c == '6' {
        Some(6)
    } else if c == '7' {
        Some(7)
    } else if c == '8' {
        Some(8)
    } else if c == '9' {
        Some(9)
    } else if c == 'a' || c == 'A' {
        Some(10)
    } else if c == 'b' || c == 'B' {
        Some(11)
    } else if c == 'c' || c == 'C' {
        Some(12)
    } else if c == 'd' || c == 'D' {
        Some(13)
    } else if c == 'e' || c == 'E' {
        Some(14)
    } else if c == 'f' || c == 'F' {
        Some(15)
    } else {
        None
    }
}

fn bin_parse_from(s: &str, start: usize) -> (r: Option<u32>)
    requires
        start <= s@.len(),
    ensures
        r == spec_bin_parse(s@.skip(start as int), 0),
{
    let n: usize = s.unicode_len();
    let mut acc: u32 = 0;
    let mut i: usize = start;
    proof {
        assert(s@.skip(start as int).skip(0) =~= s@.skip(start as int));
    }
    while i < n
        invariant
            start <= i <= n,
            n == s@.len(),
            spec_bin_parse(s@.skip(start as int), 0) == spec_bin_parse(s@.skip(i as int), acc),
        decreases n - i,
    {
        let c = s.get_char(i);
        proof {
            assert(s@.skip(i as int)[0] == s@[i as int]);
            assert(s@.skip(i as int).skip(1) =~= s@.skip(i as int + 1));
        }
        match bin_digit_of(c) {
            Some(d) => {
                acc = (acc << 1) | d;
            },
            None => {
                return None;
            },
        }
        i = i + 1;
    }
    proof {
        assert(s@.skip(n as int) =~= Seq::<char>::empty());
    }
    Some(acc)
}

fn hex_parse_from(s: &str, start: usize) -> (r: Option<u32>)
    requires
        start <= s@.len(),
    ensures
        r == spec_hex_parse(s@.skip(start as int), 0),
{
    let n: usize = s.unicode_len();
    let mut acc: u32 = 0;
    let mut i: usize = start;
    proof {
        assert(s@.skip(start as int).skip(0) =~= s@.skip(start as int));
    }
    while i < n
        invariant
            start <= i <= n,
            n == s@.len(),
            spec_hex_parse(s@.skip(start as int), 0) == spec_hex_parse(s@.skip(i as int), acc),
        decreases n - i,
    {
        let c = s.get_char(i);
        proof {
            assert(s@.skip(i as int)[0] == s@[i as int]);
            assert(s@.skip(i as int).skip(1) =~= s@.skip(i as int + 1));
        }
        match hex_digit_of(c) {
            Some(d) => {
                if acc > 0x0FFF_FFFF {
                    return None;
                }
                acc = acc * 16 + d;
            },
            None => {
                return None;
            },
        }
        i = i + 1;
    }
    proof {
        assert(s@.skip(n as int) =~= Seq::<char>::empty());
    }
    Some(acc)
}

/// Reads a reset-option number: binary after `0b`, hex after `0x` or bare.
/// Fails on an empty digit string, a stray character, or a hex value over
/// 32 bits.
pub fn parse_bin_or_hex(s: &str) -> (r: Option<u32>)
    ensures
        r == spec_parse_bin_or_hex(s@),
{
    let n: usize = s.unicode_len();
    if n >= 2 && s.get_char(0) == '0' && (s.get_char(1) == 'b' || s.get_char(1) == 'B') {
        if n == 2 {
            None
        } else {
            bin_parse_from(s, 2)
        }
    } else if n >= 2 && s.get_char(0) == '0' && (s.get_char(1) == 'x' || s.get_char(1) == 'X') {
        if n == 2 {
            None
        } else {
            hex_parse_from(s, 2)
        }
    } else if n == 0 {
        None
    } else {
        let r = hex_parse_from(s, 0);
        proof {
            assert(s@.skip(0) =~= s@);
        }
        r
    }
}

/// Whether the string holds the character anywhere.
fn str_contains_char(s: &str, c: char) -> (r: bool)
    ensures
        r == s@.contains(c),
{
    let n: usize = s.unicode_len();
    let mut i: usize = 0;
    while i < n
        invariant
            i <= n,
            n == s@.len(),
            forall|j: int| 0 <= j < i ==> s@[j] != c,
        decreases n - i,
    {
        if s.get_char(i) == c {
            return true;
        }
        i = i + 1;
    }
    proof {
        assert(!s@.contains(c)) by {
            if s@.contains(c) {
                let j = choose|j: int| 0 <= j < s@.len() && s@[j] == c;
                assert(s@[j] != c);
            }
        }
    }
    false
}

/// What a port name on the command line means on each platform family:
/// with `windows` set, a `\\.\`-prefixed name is kept, a plain `COM` name
/// (no path separators) gains the `\\.\` prefix, anything else is kept;
/// otherwise a name holding `/` is kept as a path and any other name is
/// looked up under `/dev/`.
pub open spec fn spec_normalize_port(raw: Seq<char>, windows: bool) -> Seq<char> {
    if windows {
        if raw.len() >= 4 && raw[0] == '\\' && raw[1] == '\\' && raw[2] == '.' && raw[3] == '\\' {
            raw
        } else if raw.len() >= 3 && (raw[0] == 'C' || raw[0] == 'c') && (raw[1] == 'O' || raw[1]
            == 'o') && (raw[2] == 'M' || raw[2] == 'm') && !raw.contains('\\') && !raw.contains(
            '/',
        ) {
            seq!['\\', '\\', '.', '\\'] + raw
        } else {
            raw
        }
    } else {
        if raw.contains('/') {
            raw
        } else {
            seq!['/', 'd', 'e', 'v', '/'] + raw
        }
    }
}

/// Normalizes a port name for the platform family the caller runs on.
pub fn normalize_port(raw: &str, windows: bool) -> (r: String)
    ensures
        r@ == spec_normalize_port(raw@, windows),
{
    if windows {
        let n: usize = raw.unicode_len();
        if n >= 4 && raw.get_char(0) == '\\' && raw.get_char(1) == '\\' && raw.get_char(2) == '.'
            && raw.get_char(3) == '\\' {
            raw.to_owned()
        } else if n >= 3 && (raw.get_char(0) == 'C' || raw.get_char(0) == 'c') && (raw.get_char(1)
            == 'O' || raw.get_char(1) == 'o') && (raw.get_char(2) == 'M' || raw.get_char(2) == 'm')
            && !str_contains_char(raw, '\\') && !str_contains_char(raw, '/') {
            let mut s = String::from_str("\\\\.\\");
            s.append(raw);
            proof {
                reveal_strlit("\\\\.\\");
                assert("\\\\.\\"@ =~= seq!['\\', '\\', '.', '\\']);
            }
            s
        } else {
            raw.to_owned()
        }
    } else {
        if str_contains_char(raw, '/') {
            raw.to_owned()
        } else {
            let mut s = String::from_str("/dev/");
            s.append(raw);
            proof {
                reveal_strlit("/dev/");
                assert("/dev/"@ =~= seq!['/', 'd', 'e', 'v', '/']);
            }
            s
        }
    }
}

} // verus!
