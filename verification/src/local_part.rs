//! The rules for the local part: what stands before the separating `@`.

use crate::classifier::{user_char, DOT};
use crate::constants::{ASCII_MASK, MAX_USER_LENGTH};
use crate::fields::pair_at;
use crate::validator::EmailValidator;
use vstd::prelude::*;

verus! {

/// The rules on the content of a local part, whatever its length: it is not
/// empty, neither starts nor ends with a dot, holds only bytes of the local
/// class (so no byte above 127), and no two dots side by side.
pub open spec fn local_syntax_ok(s: Seq<u8>) -> bool {
    &&& s.len() > 0
    &&& s.first() != DOT
    &&& s.last() != DOT
    &&& forall|i: int| 0 <= i < s.len() ==> user_char(#[trigger] s[i])
    &&& forall|i: int| !pair_at(s, DOT, i)
}

/// A well-formed local part: the content rules, within 64 bytes.
pub open spec fn local_part_ok(s: Seq<u8>) -> bool {
    s.len() <= MAX_USER_LENGTH && local_syntax_ok(s)
}

/// The bytes of `s` in `lo..hi` keep the per-byte rules: each is of the local
/// class, and none completes a pair of dots.
pub open spec fn run_ok(s: Seq<u8>, lo: int, hi: int) -> bool {
    forall|i: int| lo <= i < hi ==> user_char(#[trigger] s[i]) && !pair_at(s, DOT, i - 1)
}

/// The eight bytes from `at` on, as one little-endian word.
pub open spec fn word_at(s: Seq<u8>, at: int) -> u64 {
    (s[at] as u64) | (s[at + 1] as u64) << 8 | (s[at + 2] as u64) << 16 | (s[at + 3] as u64) << 24
        | (s[at + 4] as u64) << 32 | (s[at + 5] as u64) << 40 | (s[at + 6] as u64) << 48 | (s[at
        + 7] as u64) << 56
}

/// A word has none of the high bits of its bytes set exactly when each of the
/// eight bytes is below 128.
pub proof fn lemma_word_ascii(s: Seq<u8>, at: int)
    requires
        0 <= at,
        at + 8 <= s.len(),
    ensures
        (word_at(s, at) & ASCII_MASK == 0) <==> (forall|i: int|
            at <= i < at + 8 ==> #[trigger] s[i] <= 127),
{
    let b0 = s[at];
    let b1 = s[at + 1];
    let b2 = s[at + 2];
    let b3 = s[at + 3];
    let b4 = s[at + 4];
    let b5 = s[at + 5];
    let b6 = s[at + 6];
    let b7 = s[at + 7];
    let w = word_at(s, at);
    assert((w & 0x8080808080808080 == 0) <==> (b0 <= 127 && b1 <= 127 && b2 <= 127 && b3 <= 127
        && b4 <= 127 && b5 <= 127 && b6 <= 127 && b7 <= 127)) by (bit_vector)
        requires
            w == (b0 as u64) | (b1 as u64) << 8 | (b2 as u64) << 16 | (b3 as u64) << 24 | (
            b4 as u64) << 32 | (b5 as u64) << 40 | (b6 as u64) << 48 | (b7 as u64) << 56,
    ;
    if b0 <= 127 && b1 <= 127 && b2 <= 127 && b3 <= 127 && b4 <= 127 && b5 <= 127 && b6 <= 127
        && b7 <= 127 {
        assert forall|i: int| at <= i < at + 8 implies #[trigger] s[i] <= 127 by {
            assert(i == at || i == at + 1 || i == at + 2 || i == at + 3 || i == at + 4 || i == at
                + 5 || i == at + 6 || i == at + 7);
        }
    }
}

impl EmailValidator {
    /// Whether the eight bytes from `at` on are all ASCII, by one masked
    /// comparison on the word that they form.
    fn chunk_is_ascii(bytes: &[u8], at: usize) -> (r: bool)
        requires
            at + 8 <= bytes@.len(),
        ensures
            r == (forall|i: int| at <= i < at + 8 ==> #[trigger] bytes@[i] <= 127),
    {
        let word: u64 = (bytes[at] as u64) | (bytes[at + 1] as u64) << 8 | (bytes[at + 2] as u64)
            << 16 | (bytes[at + 3] as u64) << 24 | (bytes[at + 4] as u64) << 32 | (bytes[at
            + 5] as u64) << 40 | (bytes[at + 6] as u64) << 48 | (bytes[at + 7] as u64) << 56;
        proof {
            lemma_word_ascii(bytes@, at as int);
        }
        (word & ASCII_MASK) == 0
    }

    /// Scans the bytes in `lo..hi` one by one. `prev_was_dot` says whether the
    /// byte before `lo` is a dot. The result is `None` where a byte breaks a
    /// per-byte rule, and else says whether the last byte scanned is a dot.
    fn scan_user_bytes(bytes: &[u8], lo: usize, hi: usize, prev_was_dot: bool) -> (r: Option<
        bool,
    >)
        requires
            lo <= hi <= bytes@.len(),
            prev_was_dot == (lo > 0 && bytes@[lo - 1] == DOT),
        ensures
            r is Some == run_ok(bytes@, lo as int, hi as int),
            r is Some ==> r->0 == (hi > 0 && bytes@[hi - 1] == DOT),
    {
        let mut prev: bool = prev_was_dot;
        let mut i: usize = lo;
        while i < hi
            invariant
                lo <= i <= hi <= bytes@.len(),
                prev == (i > 0 && bytes@[i - 1] == DOT),
                run_ok(bytes@, lo as int, i as int),
            decreases hi - i,
        {
            let byte: u8 = bytes[i];
            if byte > 127 || !Self::is_user_char(byte) {
                assert(!user_char(bytes@[i as int]));
                return None;
            }
            if byte == DOT {
                if prev {
                    assert(pair_at(bytes@, DOT, i - 1));
                    return None;
                }
                prev = true;
            } else {
                prev = false;
            }
            i += 1;
        }
        Some(prev)
    }

    /// The content rules of a local part, byte by byte, with no limit on the
    /// length.
    pub fn validate_user_part_slow_path(bytes: &[u8]) -> (r: bool)
        ensures
            r == local_syntax_ok(bytes@),
    {
        if bytes.is_empty() {
            return false;
        }
        if bytes[0] == DOT || bytes[bytes.len() - 1] == DOT {
            return false;
        }
        Self::scan_user_bytes(bytes, 0, bytes.len(), false).is_some()
    }

    /// Whether `bytes` is a well-formed local part.
    ///
    /// Parts of eight bytes and more are taken in chunks of eight: a chunk with
    /// a byte above 127 is rejected on one comparison, before its bytes are
    /// looked at one by one.
    pub fn validate_user_part(bytes: &[u8]) -> (r: bool)
        ensures
            r == local_part_ok(bytes@),
    {
        let len: usize = bytes.len();
        if len == 0 || len > MAX_USER_LENGTH {
            return false;
        }
        if bytes[0] == DOT || bytes[len - 1] == DOT {
            return false;
        }
        if len < 8 {
            return Self::validate_user_part_slow_path(bytes);
        }
        let chunked: usize = len - len % 8;
        let mut prev_was_dot: bool = false;
        let mut at: usize = 0;
        while at < chunked
            invariant
                at <= chunked <= len == bytes@.len(),
                at % 8 == 0,
                chunked % 8 == 0,
                prev_was_dot == (at > 0 && bytes@[at - 1] == DOT),
                run_ok(bytes@, 0, at as int),
            decreases chunked - at,
        {
            if !Self::chunk_is_ascii(bytes, at) {
                let ghost i = choose|i: int| at <= i < at + 8 && !(#[trigger] bytes@[i] <= 127);
                assert(!user_char(bytes@[i]));
                return false;
            }
            match Self::scan_user_bytes(bytes, at, at + 8, prev_was_dot) {
                Some(dot) => {
                    prev_was_dot = dot;
                },
                None => {
                    return false;
                },
            }
            at += 8;
        }
        Self::scan_user_bytes(bytes, chunked, len, prev_was_dot).is_some()
    }
}

} // verus!
