//! The text form of an IPv6 address: groups of hexadecimal digits between
//! colons, with one run of zero groups that may be written `::`, and with the
//! last two groups that may be written as an IPv4 address.

use crate::classifier::{ascii_digit, COLON, DOT};
use crate::fields::{
    field_end, lemma_pair_in_field, lemma_source_bytes, lemma_split_adjacent,
    lemma_split_has_separator, lemma_split_lengths, lemma_split_next, lemma_split_nonempty,
    lemma_total_len_bound, pair_at, split, total_len,
};
use crate::ipv4::{
    is_ipv4, is_ipv4_text, lemma_ipv4_alphabet, lemma_ipv4_length, lemma_ipv4_no_dot_pair,
};
use vstd::prelude::*;

verus! {

/// A hexadecimal digit, in either case: `0`-`9`, `a`-`f` (97 to 102) or
/// `A`-`F` (65 to 70).
pub open spec fn hex_digit(b: u8) -> bool {
    ascii_digit(b) || (97 <= b && b <= 102) || (65 <= b && b <= 70)
}

/// One group: one to four hexadecimal digits.
pub open spec fn is_hex_group(field: Seq<u8>) -> bool {
    &&& 1 <= field.len() <= 4
    &&& forall|i: int| 0 <= i < field.len() ==> hex_digit(#[trigger] field[i])
}

/// The number of 16-bit groups that `s` writes, as a colon-separated list of
/// at most eight groups. With `quad`, the last field may be an IPv4 address,
/// which stands for two groups. `None` where a field is neither, or where
/// there are more than eight fields.
pub open spec fn group_count(s: Seq<u8>, quad: bool) -> Option<int> {
    let fields = split(s, COLON);
    if fields.len() > 8 {
        None
    } else if exists|i: int| 0 <= i < fields.len() - 1 && !is_hex_group(#[trigger] fields[i]) {
        None
    } else if is_hex_group(fields.last()) {
        Some(fields.len() as int)
    } else if quad && is_ipv4_text(fields.last()) {
        Some(fields.len() as int + 1)
    } else {
        None
    }
}

/// The groups on one side of a `::`: none where nothing is written there.
pub open spec fn side_count(s: Seq<u8>, quad: bool) -> Option<int> {
    if s.len() == 0 {
        Some(0)
    } else {
        group_count(s, quad)
    }
}

/// `s` is a compressed address whose `::` stands at `at`: groups before it,
/// groups after it of which the last may be an IPv4 address, and at most
/// seven groups in all, so that the `::` stands for at least one.
pub open spec fn compressed_at(s: Seq<u8>, at: int) -> bool {
    &&& pair_at(s, COLON, at)
    &&& side_count(s.take(at), false) is Some
    &&& side_count(s.skip(at + 2), true) is Some
    &&& side_count(s.take(at), false)->0 + side_count(s.skip(at + 2), true)->0 <= 7
}

/// An IPv6 address in text: eight groups in full, or fewer around one `::`.
pub open spec fn is_ipv6_text(s: Seq<u8>) -> bool {
    group_count(s, true) == Some(8int) || exists|at: int| compressed_at(s, at)
}

/// A list of groups holds no `::`.
pub proof fn lemma_groups_have_no_pair(s: Seq<u8>, quad: bool, at: int)
    requires
        pair_at(s, COLON, at),
    ensures
        group_count(s, quad) is None,
{
    lemma_split_adjacent(s, COLON, at);
    let fields = split(s, COLON);
    let i = split(s.take(at), COLON).len() as int;
    assert(!is_hex_group(fields[i]));
}

/// Only the first `::` of a string can be the one of a compressed address.
pub proof fn lemma_compressed_at_first(s: Seq<u8>, first: int, at: int)
    requires
        pair_at(s, COLON, first),
        pair_at(s, COLON, at),
        first < at,
    ensures
        !compressed_at(s, at),
{
    let head = s.take(at);
    if first + 1 < at {
        assert(pair_at(head, COLON, first));
        lemma_groups_have_no_pair(head, false, first);
    } else {
        assert(head.last() == COLON);
        assert(split(head, COLON).last().len() == 0);
        lemma_split_nonempty(head.drop_last(), COLON);
        assert(!is_hex_group(split(head, COLON).last()));
    }
}

/// No list of groups holds two dots side by side.
pub proof fn lemma_groups_have_no_dot_pair(s: Seq<u8>, quad: bool, at: int)
    requires
        pair_at(s, DOT, at),
    ensures
        group_count(s, quad) is None,
{
    let fields = split(s, COLON);
    lemma_pair_in_field(s, COLON, DOT, at);
    let (j, k) = choose|j: int, k: int|
        0 <= j < fields.len() && #[trigger] pair_at(fields[j], DOT, k);
    assert(!hex_digit(fields[j][k]));
    assert(!is_hex_group(fields[j]));
    lemma_ipv4_no_dot_pair(fields[j], k);
}

/// No IPv6 address holds two dots side by side.
pub proof fn lemma_ipv6_no_dot_pair(s: Seq<u8>, at: int)
    requires
        pair_at(s, DOT, at),
    ensures
        !is_ipv6_text(s),
{
    lemma_groups_have_no_dot_pair(s, true, at);
    assert forall|colons: int| !compressed_at(s, colons) by {
        if pair_at(s, COLON, colons) {
            if at + 1 < colons {
                assert(pair_at(s.take(colons), DOT, at));
                lemma_groups_have_no_dot_pair(s.take(colons), false, at);
            } else {
                assert(at >= colons + 2);
                assert(pair_at(s.skip(colons + 2), DOT, at - colons - 2));
                lemma_groups_have_no_dot_pair(s.skip(colons + 2), true, at - colons - 2);
            }
        }
    }
}

/// A list of groups holds nothing but hexadecimal digits, colons and dots.
pub proof fn lemma_groups_alphabet(s: Seq<u8>, quad: bool)
    requires
        group_count(s, quad) is Some,
    ensures
        forall|i: int|
            0 <= i < s.len() ==> hex_digit(#[trigger] s[i]) || s[i] == COLON || s[i] == DOT,
{
    let fields = split(s, COLON);
    lemma_source_bytes(s, COLON);
    lemma_split_nonempty(s, COLON);
    assert forall|i: int| 0 <= i < s.len() implies hex_digit(#[trigger] s[i]) || s[i] == COLON
        || s[i] == DOT by {
        if s[i] != COLON {
            let j = choose|j: int| 0 <= j < fields.len() && (#[trigger] fields[j]).contains(s[i]);
            let k = choose|k: int| 0 <= k < fields[j].len() && fields[j][k] == s[i];
            if !is_hex_group(fields[j]) {
                assert(j == fields.len() - 1);
                lemma_ipv4_alphabet(fields[j]);
                assert(ascii_digit(fields[j][k]) || fields[j][k] == DOT);
            }
        }
    }
}

/// An IPv6 address holds a colon, and holds nothing but hexadecimal digits,
/// colons and dots.
pub proof fn lemma_ipv6_alphabet(s: Seq<u8>)
    requires
        is_ipv6_text(s),
    ensures
        s.contains(COLON),
        forall|i: int|
            0 <= i < s.len() ==> hex_digit(#[trigger] s[i]) || s[i] == COLON || s[i] == DOT,
{
    if group_count(s, true) == Some(8int) {
        lemma_groups_alphabet(s, true);
        lemma_split_has_separator(s, COLON);
    } else {
        let at = choose|at: int| compressed_at(s, at);
        let head = s.take(at);
        let tail = s.skip(at + 2);
        assert(s[at] == COLON);
        if head.len() > 0 {
            lemma_groups_alphabet(head, false);
        }
        if tail.len() > 0 {
            lemma_groups_alphabet(tail, true);
        }
        assert forall|i: int| 0 <= i < s.len() implies hex_digit(#[trigger] s[i]) || s[i]
            == COLON || s[i] == DOT by {
            if i < at {
                assert(head[i] == s[i]);
            } else if i >= at + 2 {
                assert(tail[i - at - 2] == s[i]);
            }
        }
    }
}

/// A list of `n` groups has at most `5 * n - 1` bytes where all are written
/// as hexadecimal digits, and at most `5 * n + 5` where the last two are
/// written as an IPv4 address.
pub proof fn lemma_groups_length(s: Seq<u8>, quad: bool)
    requires
        group_count(s, quad) is Some,
    ensures
        s.len() <= 5 * group_count(s, quad)->0 + 5,
        !quad ==> s.len() <= 5 * group_count(s, quad)->0 - 1,
{
    let fields = split(s, COLON);
    let init = fields.drop_last();
    lemma_split_nonempty(s, COLON);
    lemma_split_lengths(s, COLON);
    assert forall|j: int| 0 <= j < init.len() implies (#[trigger] init[j]).len() <= 4 by {
        assert(init[j] == fields[j]);
        assert(is_hex_group(fields[j]));
    }
    lemma_total_len_bound(init, 4);
    assert(total_len(fields) == total_len(init) + fields.last().len());
    if !is_hex_group(fields.last()) {
        lemma_ipv4_length(fields.last());
    }
}

/// An IPv6 address has at most 45 bytes.
pub proof fn lemma_ipv6_length(s: Seq<u8>)
    requires
        is_ipv6_text(s),
    ensures
        s.len() <= 45,
{
    if group_count(s, true) == Some(8int) {
        lemma_groups_length(s, true);
    } else {
        let at = choose|at: int| compressed_at(s, at);
        let head = s.take(at);
        let tail = s.skip(at + 2);
        if head.len() > 0 {
            lemma_groups_length(head, false);
        }
        if tail.len() > 0 {
            lemma_groups_length(tail, true);
        }
    }
}

/// Whether `field` is one group of an IPv6 address.
pub fn hex_group_ok(field: &[u8]) -> (r: bool)
    ensures
        r == is_hex_group(field@),
{
    let len: usize = field.len();
    if len == 0 || len > 4 {
        return false;
    }
    let mut i: usize = 0;
    while i < len
        invariant
            i <= len == field@.len(),
            forall|k: int| 0 <= k < i ==> hex_digit(#[trigger] field@[k]),
        decreases len - i,
    {
        let byte: u8 = field[i];
        let hex: bool = (48 <= byte && byte <= 57) || (97 <= byte && byte <= 102) || (65 <= byte
            && byte <= 70);
        if !hex {
            return false;
        }
        i += 1;
    }
    true
}

/// Counts the groups of a colon-separated list, as `group_count` states.
pub fn count_groups(bytes: &[u8], quad: bool) -> (r: Option<usize>)
    ensures
        match r {
            Some(n) => group_count(bytes@, quad) == Some(n as int),
            None => group_count(bytes@, quad) is None,
        },
{
    let len: usize = bytes.len();
    let ghost all = split(bytes@, COLON);
    let ghost mut done: Seq<Seq<u8>> = Seq::empty();
    let mut count: usize = 0;
    let mut start: usize = 0;
    proof {
        assert(bytes@.skip(0) == bytes@);
    }
    loop
        invariant
            start <= len == bytes@.len(),
            all == split(bytes@, COLON),
            all == done + split(bytes@.skip(start as int), COLON),
            count == done.len(),
            count <= 7,
            forall|j: int| 0 <= j < done.len() ==> is_hex_group(#[trigger] done[j]),
        decreases len - start,
    {
        let end: usize = field_end(bytes, start, COLON);
        let field: &[u8] = &bytes[start..end];
        proof {
            lemma_split_next(bytes@, COLON, start as int, end as int);
            if end < len {
                lemma_split_nonempty(bytes@.skip(end + 1), COLON);
            }
            assert(all[count as int] == field@);
        }
        if end == len {
            proof {
                assert(all == done.push(field@));
                assert forall|i: int| 0 <= i < all.len() - 1 implies is_hex_group(
                    #[trigger] all[i],
                ) by {
                    assert(all[i] == done[i]);
                }
            }
            if hex_group_ok(field) {
                return Some(count + 1);
            }
            if quad && is_ipv4(field) {
                return Some(count + 2);
            }
            return None;
        }
        if count == 7 || !hex_group_ok(field) {
            return None;
        }
        proof {
            done = done.push(field@);
        }
        count += 1;
        start = end + 1;
    }
}

/// The place of the first `::` in `bytes`, if there is one.
pub fn find_colon_pair(bytes: &[u8]) -> (r: Option<usize>)
    ensures
        match r {
            Some(at) => pair_at(bytes@, COLON, at as int) && forall|k: int|
                0 <= k < at ==> !pair_at(bytes@, COLON, k),
            None => forall|k: int| !pair_at(bytes@, COLON, k),
        },
{
    let len: usize = bytes.len();
    if len < 2 {
        return None;
    }
    let mut at: usize = 0;
    while at < len - 1
        invariant
            at < len == bytes@.len(),
            forall|k: int| 0 <= k < at ==> !pair_at(bytes@, COLON, k),
        decreases len - at,
    {
        if bytes[at] == COLON && bytes[at + 1] == COLON {
            return Some(at);
        }
        at += 1;
    }
    None
}

/// Whether `bytes` is an IPv6 address in text.
pub fn is_ipv6(bytes: &[u8]) -> (r: bool)
    ensures
        r == is_ipv6_text(bytes@),
{
    let len: usize = bytes.len();
    match find_colon_pair(bytes) {
        None => {
            proof {
                assert forall|at: int| !compressed_at(bytes@, at) by {
                    assert(!pair_at(bytes@, COLON, at));
                }
            }
            match count_groups(bytes, true) {
                Some(n) => n == 8,
                None => false,
            }
        },
        Some(at) => {
            let head: &[u8] = &bytes[0..at];
            let tail: &[u8] = &bytes[at + 2..len];
            proof {
                assert(head@ == bytes@.take(at as int));
                assert(tail@ == bytes@.skip(at + 2));
                lemma_groups_have_no_pair(bytes@, true, at as int);
                assert forall|k: int| k != at implies !compressed_at(bytes@, k) by {
                    if pair_at(bytes@, COLON, k) {
                        lemma_compressed_at_first(bytes@, at as int, k);
                    }
                }
            }
            let before: Option<usize> = if at == 0 {
                Some(0)
            } else {
                count_groups(head, false)
            };
            let after: Option<usize> = if at + 2 == len {
                Some(0)
            } else {
                count_groups(tail, true)
            };
            match (before, after) {
                (Some(b), Some(a)) => {
                    let fits: bool = b <= 7 && a <= 7 && b + a <= 7;
                    proof {
                        if fits {
                            assert(compressed_at(bytes@, at as int));
                        }
                    }
                    fits
                },
                _ => false,
            }
        },
    }
}

} // verus!
