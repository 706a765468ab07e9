//! The byte classes that the address rules are written in.
//!
//! Each class is a closed-form rule on one byte. The validators look a byte
//! up in a constant table of 256 entries, which is proved to hold the rule.

use crate::validator::EmailValidator;
use vstd::prelude::*;

verus! {

/// The byte `@`, which separates the local part from the domain part.
pub const AT: u8 = 64;

/// The byte `.`, which separates the labels of a domain and the octets of an
/// IPv4 address.
pub const DOT: u8 = 46;

/// The byte `-`.
pub const HYPHEN: u8 = 45;

/// The byte `:`, which separates the groups of an IPv6 address.
pub const COLON: u8 = 58;

/// The byte `[`, which opens an IP literal.
pub const OPEN_BRACKET: u8 = 91;

/// The byte `]`, which closes an IP literal.
pub const CLOSE_BRACKET: u8 = 93;

/// `a`-`z` (97 to 122) or `A`-`Z` (65 to 90).
pub open spec fn ascii_letter(b: u8) -> bool {
    (97 <= b && b <= 122) || (65 <= b && b <= 90)
}

/// `0`-`9` (48 to 57).
pub open spec fn ascii_digit(b: u8) -> bool {
    48 <= b && b <= 57
}

/// An ASCII letter or digit: what a domain label starts and ends with.
pub open spec fn alphanumeric(b: u8) -> bool {
    ascii_letter(b) || ascii_digit(b)
}

/// The punctuation that a local part may hold besides letters and digits:
/// ``! # $ % & ' * + - . / = ? ^ _ ` { | } ~``, by their codes.
pub open spec fn user_symbol(b: u8) -> bool {
    b == 33 || (35 <= b && b <= 39) || b == 42 || b == 43 || (45 <= b && b <= 47) || b == 61
        || b == 63 || (94 <= b && b <= 96) || (123 <= b && b <= 126)
}

/// A byte that a local part may hold.
pub open spec fn user_char(b: u8) -> bool {
    alphanumeric(b) || user_symbol(b)
}

/// A byte that may stand inside a domain label: a letter, a digit or `-`.
pub open spec fn domain_char(b: u8) -> bool {
    alphanumeric(b) || b == HYPHEN
}

/// The local class, one entry for each byte value.
pub const USER_CHAR_TABLE: [bool; 256] = [
    false, false, false, false, false, false, false, false,
    false, false, false, false, false, false, false, false,
    false, false, false, false, false, false, false, false,
    false, false, false, false, false, false, false, false,
    false, true, false, true, true, true, true, true,
    false, false, true, true, false, true, true, true,
    true, true, true, true, true, true, true, true,
    true, true, false, false, false, true, false, true,
    false, true, true, true, true, true, true, true,
    true, true, true, true, true, true, true, true,
    true, true, true, true, true, true, true, true,
    true, true, true, false, false, false, true, true,
    true, true, true, true, true, true, true, true,
    true, true, true, true, true, true, true, true,
    true, true, true, true, true, true, true, true,
    true, true, true, true, true, true, true, false,
    false, false, false, false, false, false, false, false,
    false, false, false, false, false, false, false, false,
    false, false, false, false, false, false, false, false,
    false, false, false, false, false, false, false, false,
    false, false, false, false, false, false, false, false,
    false, false, false, false, false, false, false, false,
    false, false, false, false, false, false, false, false,
    false, false, false, false, false, false, false, false,
    false, false, false, false, false, false, false, false,
    false, false, false, false, false, false, false, false,
    false, false, false, false, false, false, false, false,
    false, false, false, false, false, false, false, false,
    false, false, false, false, false, false, false, false,
    false, false, false, false, false, false, false, false,
    false, false, false, false, false, false, false, false,
    false, false, false, false, false, false, false, false,
];

/// The class of letters and digits, one entry for each byte value.
pub const ALPHANUMERIC_TABLE: [bool; 256] = [
    false, false, false, false, false, false, false, false,
    false, false, false, false, false, false, false, false,
    false, false, false, false, false, false, false, false,
    false, false, false, false, false, false, false, false,
    false, false, false, false, false, false, false, false,
    false, false, false, false, false, false, false, false,
    true, true, true, true, true, true, true, true,
    true, true, false, false, false, false, false, false,
    false, true, true, true, true, true, true, true,
    true, true, true, true, true, true, true, true,
    true, true, true, true, true, true, true, true,
    true, true, true, false, false, false, false, false,
    false, true, true, true, true, true, true, true,
    true, true, true, true, true, true, true, true,
    true, true, true, true, true, true, true, true,
    true, true, true, false, false, false, false, false,
    false, false, false, false, false, false, false, false,
    false, false, false, false, false, false, false, false,
    false, false, false, false, false, false, false, false,
    false, false, false, false, false, false, false, false,
    false, false, false, false, false, false, false, false,
    false, false, false, false, false, false, false, false,
    false, false, false, false, false, false, false, false,
    false, false, false, false, false, false, false, false,
    false, false, false, false, false, false, false, false,
    false, false, false, false, false, false, false, false,
    false, false, false, false, false, false, false, false,
    false, false, false, false, false, false, false, false,
    false, false, false, false, false, false, false, false,
    false, false, false, false, false, false, false, false,
    false, false, false, false, false, false, false, false,
    false, false, false, false, false, false, false, false,
];

/// The class of the inside of a domain label, one entry for each byte value.
pub const DOMAIN_CHAR_TABLE: [bool; 256] = [
    false, false, false, false, false, false, false, false,
    false, false, false, false, false, false, false, false,
    false, false, false, false, false, false, false, false,
    false, false, false, false, false, false, false, false,
    false, false, false, false, false, false, false, false,
    false, false, false, false, false, true, false, false,
    true, true, true, true, true, true, true, true,
    true, true, false, false, false, false, false, false,
    false, true, true, true, true, true, true, true,
    true, true, true, true, true, true, true, true,
    true, true, true, true, true, true, true, true,
    true, true, true, false, false, false, false, false,
    false, true, true, true, true, true, true, true,
    true, true, true, true, true, true, true, true,
    true, true, true, true, true, true, true, true,
    true, true, true, false, false, false, false, false,
    false, false, false, false, false, false, false, false,
    false, false, false, false, false, false, false, false,
    false, false, false, false, false, false, false, false,
    false, false, false, false, false, false, false, false,
    false, false, false, false, false, false, false, false,
    false, false, false, false, false, false, false, false,
    false, false, false, false, false, false, false, false,
    false, false, false, false, false, false, false, false,
    false, false, false, false, false, false, false, false,
    false, false, false, false, false, false, false, false,
    false, false, false, false, false, false, false, false,
    false, false, false, false, false, false, false, false,
    false, false, false, false, false, false, false, false,
    false, false, false, false, false, false, false, false,
    false, false, false, false, false, false, false, false,
    false, false, false, false, false, false, false, false,
];

impl EmailValidator {
    pub fn is_user_char(byte: u8) -> (r: bool)
        ensures
            r == user_char(byte),
    {
        USER_CHAR_TABLE[byte as usize]
    }

    pub fn is_alphanumeric_byte(byte: u8) -> (r: bool)
        ensures
            r == alphanumeric(byte),
    {
        ALPHANUMERIC_TABLE[byte as usize]
    }

    pub fn is_domain_char(byte: u8) -> (r: bool)
        ensures
            r == domain_char(byte),
    {
        DOMAIN_CHAR_TABLE[byte as usize]
    }
}

} // verus!
