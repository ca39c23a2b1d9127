//! Parsing of unsigned numbers out of raw bytes: decimal values for the
//! `begin=` directive and protocol status codes, hexadecimal values for
//! the declared checksum of a trailer line.

use vstd::prelude::*;

verus! {

pub open spec fn is_digit(b: u8) -> bool {
    48 <= b && b <= 57
}

pub open spec fn digit_val(b: u8) -> int {
    b - 48
}

/// Case-insensitive hexadecimal digit.
pub open spec fn is_hex_digit(b: u8) -> bool {
    is_digit(b) || (97 <= b && b <= 102) || (65 <= b && b <= 70)
}

pub open spec fn hex_val(b: u8) -> int {
    if is_digit(b) {
        b - 48
    } else if 97 <= b && b <= 102 {
        b - 87
    } else {
        b - 55
    }
}

/// Value of the decimal digits of `s` from index `i` on, folded onto `acc`;
/// `None` on a non-digit byte or once the value exceeds `u64::MAX`.
pub open spec fn dec_value_rec(s: Seq<u8>, i: int, acc: int) -> Option<int>
    decreases s.len() - i,
{
    if i < 0 || i >= s.len() {
        Some(acc)
    } else if !is_digit(s[i]) {
        None
    } else if acc * 10 + digit_val(s[i]) > u64::MAX {
        None
    } else {
        dec_value_rec(s, i + 1, acc * 10 + digit_val(s[i]))
    }
}

/// The `u64` denoted by `s` as a plain run of decimal digits, if any.
pub open spec fn parse_u64_spec(s: Seq<u8>) -> Option<u64> {
    if s.len() == 0 {
        None
    } else {
        match dec_value_rec(s, 0, 0) {
            Some(v) => Some(v as u64),
            None => None,
        }
    }
}

/// Value of the hex digits of `s` from index `i` on, folded onto `acc`;
/// `None` on a non-hex byte or once the value exceeds `u32::MAX`.
pub open spec fn hex_value_rec(s: Seq<u8>, i: int, acc: int) -> Option<int>
    decreases s.len() - i,
{
    if i < 0 || i >= s.len() {
        Some(acc)
    } else if !is_hex_digit(s[i]) {
        None
    } else if acc * 16 + hex_val(s[i]) > u32::MAX {
        None
    } else {
        hex_value_rec(s, i + 1, acc * 16 + hex_val(s[i]))
    }
}

/// The `u32` denoted by `s` as a run of case-insensitive hex digits, if any.
pub open spec fn parse_hex_u32_spec(s: Seq<u8>) -> Option<u32> {
    if s.len() == 0 {
        None
    } else {
        match hex_value_rec(s, 0, 0) {
            Some(v) => Some(v as u32),
            None => None,
        }
    }
}

/// Parse `s` as an unsigned decimal number.
pub fn parse_u64_digits(s: &[u8]) -> (r: Option<u64>)
    ensures
        r == parse_u64_spec(s@),
{
    let n: usize = s.len();
    if n == 0 {
        return None;
    }
    let mut acc: u64 = 0;
    let mut i: usize = 0;
    while i < n
        invariant
            n == s@.len(),
            i <= n,
            dec_value_rec(s@, 0, 0) == dec_value_rec(s@, i as int, acc as int),
        decreases n - i,
    {
        let b = s[i];
        if b < 48 || b > 57 {
            return None;
        }
        let d: u64 = (b - 48) as u64;
        let wide: u128 = acc as u128 * 10 + d as u128;
        if wide > u64::MAX as u128 {
            return None;
        }
        acc = wide as u64;
        i = i + 1;
    }
    Some(acc)
}

/// Parse `s` as an unsigned hexadecimal number, either letter case accepted.
pub fn parse_hex_u32(s: &[u8]) -> (r: Option<u32>)
    ensures
        r == parse_hex_u32_spec(s@),
{
    let n: usize = s.len();
    if n == 0 {
        return None;
    }
    let mut acc: u32 = 0;
    let mut i: usize = 0;
    while i < n
        invariant
            n == s@.len(),
            i <= n,
            hex_value_rec(s@, 0, 0) == hex_value_rec(s@, i as int, acc as int),
        decreases n - i,
    {
        let b = s[i];
        let d: u32 = if 48 <= b && b <= 57 {
            (b - 48) as u32
        } else if 97 <= b && b <= 102 {
            (b - 87) as u32
        } else if 65 <= b && b <= 70 {
            (b - 55) as u32
        } else {
            return None;
        };
        let wide: u64 = acc as u64 * 16 + d as u64;
        if wide > u32::MAX as u64 {
            return None;
        }
        acc = wide as u32;
        i = i + 1;
    }
    Some(acc)
}

} // verus!
