//! The text form of an IPv4 address: four decimal octets between dots.

use crate::classifier::{ascii_digit, DOT};
use crate::fields::{
    field_end, lemma_source_bytes, lemma_split_adjacent, lemma_split_has_separator,
    lemma_split_lengths, lemma_split_next, lemma_split_nonempty, lemma_total_len_bound, pair_at,
    split,
};
use vstd::prelude::*;

verus! {

/// The number that a run of decimal digits writes.
pub open spec fn decimal_value(digits: Seq<u8>) -> nat
    decreases digits.len(),
{
    if digits.len() == 0 {
        0
    } else {
        decimal_value(digits.drop_last()) * 10 + (digits.last() - 48) as nat
    }
}

/// One octet: one to three decimal digits that write a number up to 255,
/// with no zero in front of another digit.
pub open spec fn is_octet(field: Seq<u8>) -> bool {
    &&& 1 <= field.len() <= 3
    &&& forall|i: int| 0 <= i < field.len() ==> ascii_digit(#[trigger] field[i])
    &&& (field.len() > 1 ==> field.first() != 48)
    &&& decimal_value(field) <= 255
}

/// An IPv4 address in text: exactly four octets, with a dot between each two.
pub open spec fn is_ipv4_text(s: Seq<u8>) -> bool {
    let octets = split(s, DOT);
    octets.len() == 4 && forall|i: int| 0 <= i < 4 ==> is_octet(#[trigger] octets[i])
}

/// No IPv4 address holds two dots side by side.
pub proof fn lemma_ipv4_no_dot_pair(s: Seq<u8>, at: int)
    requires
        pair_at(s, DOT, at),
    ensures
        !is_ipv4_text(s),
{
    lemma_split_adjacent(s, DOT, at);
}

/// An IPv4 address holds a dot, and holds nothing but digits and dots.
pub proof fn lemma_ipv4_alphabet(s: Seq<u8>)
    requires
        is_ipv4_text(s),
    ensures
        s.contains(DOT),
        forall|i: int| 0 <= i < s.len() ==> ascii_digit(#[trigger] s[i]) || s[i] == DOT,
{
    let octets = split(s, DOT);
    lemma_split_has_separator(s, DOT);
    lemma_source_bytes(s, DOT);
    assert forall|i: int| 0 <= i < s.len() implies ascii_digit(#[trigger] s[i]) || s[i]
        == DOT by {
        if s[i] != DOT {
            let j = choose|j: int| 0 <= j < octets.len() && (#[trigger] octets[j]).contains(s[i]);
            assert(is_octet(octets[j]));
        }
    }
}

/// An IPv4 address has at most 15 bytes.
pub proof fn lemma_ipv4_length(s: Seq<u8>)
    requires
        is_ipv4_text(s),
    ensures
        s.len() <= 15,
{
    lemma_split_lengths(s, DOT);
    lemma_total_len_bound(split(s, DOT), 3);
}

/// Whether `field` is one octet of an IPv4 address.
pub fn octet_ok(field: &[u8]) -> (r: bool)
    ensures
        r == is_octet(field@),
{
    let len: usize = field.len();
    if len == 0 || len > 3 {
        return false;
    }
    if len > 1 && field[0] == 48 {
        return false;
    }
    let mut value: u32 = 0;
    let mut i: usize = 0;
    while i < len
        invariant
            i <= len == field@.len(),
            len <= 3,
            forall|k: int| 0 <= k < i ==> ascii_digit(#[trigger] field@[k]),
            value == decimal_value(field@.take(i as int)),
            i == 0 ==> value == 0,
            i == 1 ==> value <= 9,
            i == 2 ==> value <= 99,
        decreases len - i,
    {
        let byte: u8 = field[i];
        if byte < 48 || byte > 57 {
            return false;
        }
        assert(field@.take(i + 1).drop_last() == field@.take(i as int));
        value = value * 10 + (byte - 48) as u32;
        i += 1;
    }
    assert(field@.take(len as int) == field@);
    value <= 255
}

/// Whether `bytes` is an IPv4 address in text.
pub fn is_ipv4(bytes: &[u8]) -> (r: bool)
    ensures
        r == is_ipv4_text(bytes@),
{
    let len: usize = bytes.len();
    let ghost all = split(bytes@, DOT);
    let ghost mut done: Seq<Seq<u8>> = Seq::empty();
    let mut count: usize = 0;
    let mut start: usize = 0;
    proof {
        assert(bytes@.skip(0) == bytes@);
    }
    loop
        invariant
            start <= len == bytes@.len(),
            all == split(bytes@, DOT),
            all == done + split(bytes@.skip(start as int), DOT),
            count == done.len(),
            count <= 3,
            forall|j: int| 0 <= j < done.len() ==> is_octet(#[trigger] done[j]),
        decreases len - start,
    {
        let end: usize = field_end(bytes, start, DOT);
        let field: &[u8] = &bytes[start..end];
        proof {
            lemma_split_next(bytes@, DOT, start as int, end as int);
            if end < len {
                lemma_split_nonempty(bytes@.skip(end + 1), DOT);
            }
            assert(all[count as int] == field@);
        }
        if !octet_ok(field) {
            return false;
        }
        if end == len {
            proof {
                assert(all == done.push(field@));
                if count == 3 {
                    assert forall|i: int| 0 <= i < 4 implies is_octet(#[trigger] all[i]) by {
                        if i < 3 {
                            assert(all[i] == done[i]);
                        }
                    }
                }
            }
            return count == 3;
        }
        if count == 3 {
            return false;
        }
        proof {
            done = done.push(field@);
        }
        count += 1;
        start = end + 1;
    }
}

} // verus!
