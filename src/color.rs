//! Colours written in hexadecimal, `0xrrggbb`.

use crate::text::chars_of;
use vstd::prelude::*;

verus! {

/// Why a colour could not be read.
#[derive(PartialEq, Eq, Structural, Clone, Copy, Debug)]
pub enum ColorError {
    /// Fewer than six characters follow the `0x` prefix.
    TooShort,
    /// A component is not a hexadecimal number.
    InvalidDigit,
}

/// The value of a hexadecimal digit, either case.
pub open spec fn hex_digit(c: char) -> Option<u8> {
    if '0' <= c && c <= '9' {
        Some((c as u32 - '0' as u32) as u8)
    } else if 'a' <= c && c <= 'f' {
        Some((c as u32 - 'a' as u32 + 10) as u8)
    } else if 'A' <= c && c <= 'F' {
        Some((c as u32 - 'A' as u32 + 10) as u8)
    } else {
        None
    }
}

/// The byte written by the two characters `a b`: two hexadecimal digits, or
/// a plus sign and one digit.
pub open spec fn hex_pair(a: char, b: char) -> Option<u8> {
    if a == '+' {
        hex_digit(b)
    } else {
        match (hex_digit(a), hex_digit(b)) {
            (Some(h), Some(l)) => Some((16 * h + l) as u8),
            _ => None,
        }
    }
}

/// The position after every `0x` that `s` starts with from position `i`.
pub open spec fn prefix_end(s: Seq<char>, i: int) -> int
    decreases s.len() - i,
{
    if 0 <= i && i + 2 <= s.len() && s[i] == '0' && s[i + 1] == 'x' {
        prefix_end(s, i + 2)
    } else {
        i
    }
}

/// The colour written in `s`: after its `0x` prefixes, the red, green and
/// blue bytes in two characters each; what follows them is not read.
pub open spec fn color_spec(s: Seq<char>) -> Result<(u8, u8, u8), ColorError> {
    let p = prefix_end(s, 0);
    if s.len() - p < 6 {
        Err(ColorError::TooShort)
    } else {
        match (hex_pair(s[p], s[p + 1]), hex_pair(s[p + 2], s[p + 3]), hex_pair(s[p + 4], s[p + 5])) {
            (Some(r), Some(g), Some(b)) => Ok((r, g, b)),
            _ => Err(ColorError::InvalidDigit),
        }
    }
}

fn hex_digit_exec(c: char) -> (r: Option<u8>)
    ensures
        r == hex_digit(c),
{
    if '0' <= c && c <= '9' {
        Some((c as u32 - '0' as u32) as u8)
    } else if 'a' <= c && c <= 'f' {
        Some((c as u32 - 'a' as u32 + 10) as u8)
    } else if 'A' <= c && c <= 'F' {
        Some((c as u32 - 'A' as u32 + 10) as u8)
    } else {
        None
    }
}

fn hex_pair_exec(a: char, b: char) -> (r: Option<u8>)
    ensures
        r == hex_pair(a, b),
{
    if a == '+' {
        hex_digit_exec(b)
    } else {
        match (hex_digit_exec(a), hex_digit_exec(b)) {
            (Some(h), Some(l)) => Some(16 * h + l),
            _ => None,
        }
    }
}

/// Reads a colour written `0xrrggbb` as its red, green and blue bytes.
pub fn color_from_hex(s: &str) -> (r: Result<(u8, u8, u8), ColorError>)
    ensures
        r == color_spec(s@),
{
    let v = chars_of(s);
    let n = v.len();
    let mut p: usize = 0;
    while 2 <= n - p && v[p] == '0' && v[p + 1] == 'x'
        invariant
            n == v@.len(),
            v@ == s@,
            p <= n,
            prefix_end(s@, p as int) == prefix_end(s@, 0),
        decreases n - p,
    {
        p = p + 2;
    }
    if n - p < 6 {
        return Err(ColorError::TooShort);
    }
    match (hex_pair_exec(v[p], v[p + 1]), hex_pair_exec(v[p + 2], v[p + 3]), hex_pair_exec(v[p + 4], v[p + 5])) {
        (Some(r), Some(g), Some(b)) => Ok((r, g, b)),
        _ => Err(ColorError::InvalidDigit),
    }
}

} // verus!
