//! IP addresses in text, as they stand between the brackets of an IP literal.

use crate::classifier::{ascii_digit, COLON, DOT};
use crate::ipv4::{is_ipv4, is_ipv4_text};
use crate::ipv6::{hex_digit, is_ipv6, is_ipv6_text};
use vstd::prelude::*;
use vstd::string::StringSliceAdditionalSpecFns;

verus! {

/// The longest text that is tried as an address, in bytes: six groups, their
/// colons and a full IPv4 address.
pub const MAX_IP_TEXT_LENGTH: usize = 45;

/// A byte of the IPv4 alphabet: a decimal digit or a dot.
pub open spec fn ipv4_char(b: u8) -> bool {
    ascii_digit(b) || b == DOT
}

/// A byte of the IPv6 alphabet: a hexadecimal digit or a colon.
pub open spec fn ipv6_char(b: u8) -> bool {
    hex_digit(b) || b == COLON
}

/// The cheap test before an address is parsed. The text is not empty and at
/// most 45 bytes long, holds a colon or a dot, and all its bytes are of the
/// alphabet that these two call for: with a colon the IPv6 alphabet, to
/// which a dot in the text adds the dot; with dots alone the IPv4 alphabet.
pub open spec fn precheck_ok(s: Seq<u8>) -> bool {
    &&& 1 <= s.len() <= MAX_IP_TEXT_LENGTH
    &&& if s.contains(COLON) {
        forall|i: int| 0 <= i < s.len() ==> ipv6_char(#[trigger] s[i]) || s[i] == DOT
    } else {
        s.contains(DOT) && forall|i: int| 0 <= i < s.len() ==> ipv4_char(#[trigger] s[i])
    }
}

/// An IP address in text: at most 45 bytes that are an IPv4 or an IPv6
/// address.
pub open spec fn ip_text_ok(s: Seq<u8>) -> bool {
    s.len() <= MAX_IP_TEXT_LENGTH && (is_ipv4_text(s) || is_ipv6_text(s))
}

pub fn is_valid_ipv4_char(byte: u8) -> (r: bool)
    ensures
        r == ipv4_char(byte),
{
    (48 <= byte && byte <= 57) || byte == DOT
}

pub fn is_valid_ipv6_char(byte: u8) -> (r: bool)
    ensures
        r == ipv6_char(byte),
{
    (48 <= byte && byte <= 57) || (97 <= byte && byte <= 102) || (65 <= byte && byte <= 70)
        || byte == COLON
}

/// Whether `bytes` passes the cheap test before an address is parsed.
pub fn fast_ip_precheck(bytes: &[u8]) -> (r: bool)
    ensures
        r == precheck_ok(bytes@),
{
    let len: usize = bytes.len();
    if len == 0 || len > MAX_IP_TEXT_LENGTH {
        return false;
    }
    let mut has_colon: bool = false;
    let mut has_dot: bool = false;
    let mut all_ipv4: bool = true;
    let mut all_either: bool = true;
    let mut i: usize = 0;
    while i < len
        invariant
            i <= len == bytes@.len(),
            has_colon == bytes@.take(i as int).contains(COLON),
            has_dot == bytes@.take(i as int).contains(DOT),
            all_ipv4 == (forall|k: int| 0 <= k < i ==> ipv4_char(#[trigger] bytes@[k])),
            all_either == (forall|k: int|
                0 <= k < i ==> ipv6_char(#[trigger] bytes@[k]) || bytes@[k] == DOT),
        decreases len - i,
    {
        let byte: u8 = bytes[i];
        let ghost before = bytes@.take(i as int);
        let ghost after = bytes@.take(i + 1);
        proof {
            assert(after == before.push(byte));
            assert forall|b: u8| after.contains(b) == (before.contains(b) || b == byte) by {
                if before.contains(b) {
                    let k = choose|k: int| 0 <= k < before.len() && before[k] == b;
                    assert(after[k] == b);
                }
                if b == byte {
                    assert(after[i as int] == b);
                }
            }
        }
        if byte == COLON {
            has_colon = true;
        }
        if byte == DOT {
            has_dot = true;
        }
        if !is_valid_ipv4_char(byte) {
            all_ipv4 = false;
        }
        if !is_valid_ipv6_char(byte) && byte != DOT {
            all_either = false;
        }
        i += 1;
    }
    assert(bytes@.take(len as int) == bytes@);
    if has_colon {
        all_either
    } else {
        has_dot && all_ipv4
    }
}

/// Whether `bytes` is an IP address in text.
pub fn validate_ip_bytes(bytes: &[u8]) -> (r: bool)
    ensures
        r == ip_text_ok(bytes@),
{
    bytes.len() <= MAX_IP_TEXT_LENGTH && (is_ipv4(bytes) || is_ipv6(bytes))
}

/// Texts that can be asked whether they are an IP address.
pub trait ValidateIp {
    /// What `validate_ip` answers.
    spec fn is_ip_text(&self) -> bool;

    fn validate_ip(&self) -> (r: bool)
        ensures
            r == self.is_ip_text(),
    ;
}

impl ValidateIp for str {
    open spec fn is_ip_text(&self) -> bool {
        ip_text_ok(self.spec_bytes())
    }

    fn validate_ip(&self) -> (r: bool) {
        validate_ip_bytes(self.as_bytes())
    }
}

} // verus!
