//! Length limits of an address and of its parts. All are inclusive.

use vstd::prelude::*;

verus! {

/// Longest local part, in bytes.
pub const MAX_USER_LENGTH: usize = 64;

/// Longest domain part, in bytes.
pub const MAX_DOMAIN_LENGTH: usize = 255;

/// Longest dot-delimited label of a domain, in bytes.
pub const MAX_LABEL_LENGTH: usize = 63;

/// Shortest address, in bytes: one byte on each side of the `@`.
pub const MIN_EMAIL_LENGTH: usize = 3;

/// Longest address, in bytes.
pub const MAX_EMAIL_LENGTH: usize = 320;

/// The high bit of each of the eight bytes of a word: a word of ASCII bytes
/// has none of them set.
pub const ASCII_MASK: u64 = 0x8080808080808080;

} // verus!
