//! The address rules do not tell an ASCII letter from the same letter in the
//! other case. This module proves it rule by rule.

use crate::classifier::{ascii_letter, user_char, COLON, DOT};
use crate::domain::{
    bad_interior_at, domain_result, label_is, label_result, labels, non_ascii_interior_at,
};
use crate::fields::{lemma_field_bytes, lemma_split_nonempty, pair_at, split};
use crate::ip::{ipv4_char, ipv6_char, precheck_ok};
use crate::ipv4::{is_ipv4_text, is_octet};
use crate::ipv6::{
    compressed_at, group_count, hex_digit, is_hex_group, is_ipv6_text, side_count,
};
use crate::local_part::{local_part_ok, local_syntax_ok};
use crate::types::ValidationResult;
use crate::validator::{
    bracketed, domain_part, has_separator, ip_literal_ok, is_last_separator,
    is_separator, lemma_separator_exists, lemma_separator_unique, literal_interior, local_part,
    separator, verdict,
};
use vstd::prelude::*;

verus! {

/// The two bytes are equal, or are the same letter in the two cases.
pub open spec fn same_ignoring_case(a: u8, b: u8) -> bool {
    a == b || (ascii_letter(a) && ascii_letter(b) && (a + 32 == b || b + 32 == a))
}

/// The two strings are equal but for the case of their ASCII letters.
pub open spec fn case_equal(a: Seq<u8>, b: Seq<u8>) -> bool {
    a.len() == b.len() && forall|i: int|
        0 <= i < a.len() ==> same_ignoring_case(#[trigger] a[i], b[i])
}

/// Every byte of the string is ASCII.
pub open spec fn all_ascii(s: Seq<u8>) -> bool {
    forall|i: int| 0 <= i < s.len() ==> #[trigger] s[i] <= 127
}

/// Parts of strings that differ only in case differ only in case.
pub proof fn lemma_case_subrange(a: Seq<u8>, b: Seq<u8>, from: int, to: int)
    requires
        case_equal(a, b),
        0 <= from <= to <= a.len(),
    ensures
        case_equal(a.subrange(from, to), b.subrange(from, to)),
{
    let x = a.subrange(from, to);
    let y = b.subrange(from, to);
    assert forall|i: int| 0 <= i < x.len() implies same_ignoring_case(#[trigger] x[i], y[i]) by {
        assert(same_ignoring_case(a[from + i], b[from + i]));
    }
}

/// Strings that differ only in case have, for a separator that is no letter,
/// as many fields, which differ only in case.
pub proof fn lemma_case_split(a: Seq<u8>, b: Seq<u8>, sep: u8)
    requires
        case_equal(a, b),
        !ascii_letter(sep),
    ensures
        split(a, sep).len() == split(b, sep).len(),
        forall|j: int|
            0 <= j < split(a, sep).len() ==> case_equal(
                #[trigger] split(a, sep)[j],
                split(b, sep)[j],
            ),
    decreases a.len(),
{
    if a.len() > 0 {
        let n = a.len() - 1;
        lemma_case_subrange(a, b, 0, n);
        lemma_case_split(a.drop_last(), b.drop_last(), sep);
        lemma_split_nonempty(a.drop_last(), sep);
        lemma_split_nonempty(b.drop_last(), sep);
        assert(same_ignoring_case(a[n], b[n]));
        let fa = split(a, sep);
        let fb = split(b, sep);
        let pa = split(a.drop_last(), sep);
        let pb = split(b.drop_last(), sep);
        assert forall|j: int| 0 <= j < fa.len() implies case_equal(#[trigger] fa[j], fb[j]) by {
            if j < pa.len() {
                assert(case_equal(pa[j], pb[j]));
            }
            if a.last() != sep && j == fa.len() - 1 {
                let x = fa[j];
                let y = fb[j];
                assert forall|i: int| 0 <= i < x.len() implies same_ignoring_case(
                    #[trigger] x[i],
                    y[i],
                ) by {
                    if i < x.len() - 1 {
                        assert(same_ignoring_case(pa[j][i], pb[j][i]));
                    }
                }
            }
        }
    }
}

/// The rules of the local part do not tell the cases apart.
pub proof fn lemma_case_local(a: Seq<u8>, b: Seq<u8>)
    requires
        case_equal(a, b),
    ensures
        local_part_ok(a) == local_part_ok(b),
{
    if a.len() > 0 {
        assert(same_ignoring_case(a[0], b[0]));
        assert(same_ignoring_case(a[a.len() - 1], b[a.len() - 1]));
    }
    if local_syntax_ok(a) {
        lemma_case_local_one_way(a, b);
    }
    if local_syntax_ok(b) {
        lemma_case_symmetric(a, b);
        lemma_case_local_one_way(b, a);
    }
}

proof fn lemma_case_local_one_way(a: Seq<u8>, b: Seq<u8>)
    requires
        case_equal(a, b),
        local_syntax_ok(a),
    ensures
        local_syntax_ok(b),
{
    assert(same_ignoring_case(a[0], b[0]));
    assert(same_ignoring_case(a[a.len() - 1], b[a.len() - 1]));
    assert forall|i: int| 0 <= i < b.len() implies user_char(#[trigger] b[i]) by {
        assert(same_ignoring_case(a[i], b[i]));
        assert(user_char(a[i]));
    }
    assert forall|i: int| !pair_at(b, DOT, i) by {
        if pair_at(b, DOT, i) {
            assert(same_ignoring_case(a[i], b[i]));
            assert(same_ignoring_case(a[i + 1], b[i + 1]));
            assert(pair_at(a, DOT, i));
        }
    }
}

/// The label rules do not tell the cases apart.
pub proof fn lemma_case_label(a: Seq<u8>, b: Seq<u8>)
    requires
        case_equal(a, b),
    ensures
        label_result(a) == label_result(b),
{
    if a.len() > 0 {
        assert(same_ignoring_case(a[0], b[0]));
        assert(same_ignoring_case(a[a.len() - 1], b[a.len() - 1]));
    }
    assert forall|i: int| bad_interior_at(a, i) == bad_interior_at(b, i) by {
        if 0 < i < a.len() - 1 {
            assert(same_ignoring_case(a[i], b[i]));
        }
    }
    assert forall|i: int| non_ascii_interior_at(a, i) == non_ascii_interior_at(b, i) by {
        if 0 < i < a.len() - 1 {
            assert(same_ignoring_case(a[i], b[i]));
        }
    }
    assert((exists|i: int| bad_interior_at(a, i)) == (exists|i: int| bad_interior_at(b, i))) by {
        if exists|i: int| bad_interior_at(a, i) {
            let i = choose|i: int| bad_interior_at(a, i);
            assert(bad_interior_at(b, i));
        }
        if exists|i: int| bad_interior_at(b, i) {
            let i = choose|i: int| bad_interior_at(b, i);
            assert(bad_interior_at(a, i));
        }
    }
    assert((exists|i: int| non_ascii_interior_at(a, i)) == (exists|i: int|
        non_ascii_interior_at(b, i))) by {
        if exists|i: int| non_ascii_interior_at(a, i) {
            let i = choose|i: int| non_ascii_interior_at(a, i);
            assert(non_ascii_interior_at(b, i));
        }
        if exists|i: int| non_ascii_interior_at(b, i) {
            let i = choose|i: int| non_ascii_interior_at(b, i);
            assert(non_ascii_interior_at(a, i));
        }
    }
}

/// The label rules on a whole domain do not tell the cases apart.
pub proof fn lemma_case_domain(a: Seq<u8>, b: Seq<u8>)
    requires
        case_equal(a, b),
    ensures
        domain_result(a) == domain_result(b),
{
    lemma_case_split(a, b, DOT);
    let la = labels(a);
    let lb = labels(b);
    assert forall|j: int, v: ValidationResult| label_is(la, j, v) == label_is(lb, j, v) by {
        if 0 <= j < la.len() {
            assert(case_equal(la[j], lb[j]));
            lemma_case_label(la[j], lb[j]);
        }
    }
    let inv = ValidationResult::Invalid;
    let idn = ValidationResult::RequiresIdnCheck;
    assert((exists|j: int| label_is(la, j, inv)) == (exists|j: int| label_is(lb, j, inv))) by {
        if exists|j: int| label_is(la, j, inv) {
            let j = choose|j: int| label_is(la, j, inv);
            assert(label_is(lb, j, inv));
        }
        if exists|j: int| label_is(lb, j, inv) {
            let j = choose|j: int| label_is(lb, j, inv);
            assert(label_is(la, j, inv));
        }
    }
    assert((exists|j: int| label_is(la, j, idn)) == (exists|j: int| label_is(lb, j, idn))) by {
        if exists|j: int| label_is(la, j, idn) {
            let j = choose|j: int| label_is(la, j, idn);
            assert(label_is(lb, j, idn));
        }
        if exists|j: int| label_is(lb, j, idn) {
            let j = choose|j: int| label_is(lb, j, idn);
            assert(label_is(la, j, idn));
        }
    }
}

/// A domain of ASCII bytes alone never awaits an ASCII form.
pub proof fn lemma_ascii_domain(domain: Seq<u8>)
    requires
        all_ascii(domain),
    ensures
        domain_result(domain) != ValidationResult::RequiresIdnCheck,
{
    let all = labels(domain);
    lemma_field_bytes(domain, DOT);
    assert forall|j: int| !label_is(all, j, ValidationResult::RequiresIdnCheck) by {
        if label_is(all, j, ValidationResult::RequiresIdnCheck) {
            let k = choose|k: int| non_ascii_interior_at(all[j], k);
            assert(domain.contains(all[j][k]));
        }
    }
}

/// Being equal but for the case goes both ways.
pub proof fn lemma_case_symmetric(a: Seq<u8>, b: Seq<u8>)
    requires
        case_equal(a, b),
    ensures
        case_equal(b, a),
{
    assert forall|i: int| 0 <= i < b.len() implies same_ignoring_case(#[trigger] b[i], a[i]) by {
        assert(same_ignoring_case(a[i], b[i]));
    }
}

/// An octet has no letters, so a string that differs from it only in case
/// is the same octet.
proof fn lemma_case_octet_one_way(a: Seq<u8>, b: Seq<u8>)
    requires
        case_equal(a, b),
        is_octet(a),
    ensures
        is_octet(b),
{
    assert forall|i: int| 0 <= i < a.len() implies a[i] == b[i] by {
        assert(same_ignoring_case(a[i], b[i]));
    }
    assert(a =~= b);
}

/// The rules of an IPv4 address do not tell the cases apart.
pub proof fn lemma_case_ipv4(a: Seq<u8>, b: Seq<u8>)
    requires
        case_equal(a, b),
    ensures
        is_ipv4_text(a) == is_ipv4_text(b),
{
    lemma_case_split(a, b, DOT);
    let fa = split(a, DOT);
    let fb = split(b, DOT);
    if fa.len() == 4 {
        assert forall|j: int| 0 <= j < 4 implies is_octet(#[trigger] fa[j]) == is_octet(fb[j]) by {
            assert(case_equal(fa[j], fb[j]));
            lemma_case_symmetric(fa[j], fb[j]);
            if is_octet(fa[j]) {
                lemma_case_octet_one_way(fa[j], fb[j]);
            }
            if is_octet(fb[j]) {
                lemma_case_octet_one_way(fb[j], fa[j]);
            }
        }
        if is_ipv4_text(a) {
            assert forall|j: int| 0 <= j < 4 implies is_octet(#[trigger] fb[j]) by {
                assert(is_octet(fa[j]));
            }
        }
        if is_ipv4_text(b) {
            assert forall|j: int| 0 <= j < 4 implies is_octet(#[trigger] fa[j]) by {
                assert(is_octet(fb[j]));
            }
        }
    }
}

/// The rule of a group of hexadecimal digits does not tell the cases apart.
pub proof fn lemma_case_hex_group(a: Seq<u8>, b: Seq<u8>)
    requires
        case_equal(a, b),
    ensures
        is_hex_group(a) == is_hex_group(b),
{
    if is_hex_group(a) {
        assert forall|i: int| 0 <= i < b.len() implies hex_digit(#[trigger] b[i]) by {
            assert(same_ignoring_case(a[i], b[i]));
            assert(hex_digit(a[i]));
        }
    }
    if is_hex_group(b) {
        assert forall|i: int| 0 <= i < a.len() implies hex_digit(#[trigger] a[i]) by {
            assert(same_ignoring_case(a[i], b[i]));
            assert(hex_digit(b[i]));
        }
    }
}

/// The count of the groups of a list does not tell the cases apart.
pub proof fn lemma_case_group_count(a: Seq<u8>, b: Seq<u8>, quad: bool)
    requires
        case_equal(a, b),
    ensures
        group_count(a, quad) == group_count(b, quad),
        side_count(a, quad) == side_count(b, quad),
{
    lemma_case_split(a, b, COLON);
    lemma_split_nonempty(a, COLON);
    let fa = split(a, COLON);
    let fb = split(b, COLON);
    assert forall|j: int| 0 <= j < fa.len() implies is_hex_group(#[trigger] fa[j]) == is_hex_group(
        fb[j],
    ) by {
        assert(case_equal(fa[j], fb[j]));
        lemma_case_hex_group(fa[j], fb[j]);
    }
    assert(case_equal(fa[fa.len() - 1], fb[fa.len() - 1]));
    lemma_case_ipv4(fa.last(), fb.last());
    let bad_a = exists|i: int| 0 <= i < fa.len() - 1 && !is_hex_group(#[trigger] fa[i]);
    let bad_b = exists|i: int| 0 <= i < fb.len() - 1 && !is_hex_group(#[trigger] fb[i]);
    if bad_a {
        let i = choose|i: int| 0 <= i < fa.len() - 1 && !is_hex_group(#[trigger] fa[i]);
        assert(!is_hex_group(fb[i]));
    }
    if bad_b {
        let i = choose|i: int| 0 <= i < fb.len() - 1 && !is_hex_group(#[trigger] fb[i]);
        assert(!is_hex_group(fa[i]));
    }
    assert(bad_a == bad_b);
}

/// The rules of an IPv6 address do not tell the cases apart.
pub proof fn lemma_case_ipv6(a: Seq<u8>, b: Seq<u8>)
    requires
        case_equal(a, b),
    ensures
        is_ipv6_text(a) == is_ipv6_text(b),
{
    lemma_case_group_count(a, b, true);
    assert forall|at: int| compressed_at(a, at) == compressed_at(b, at) by {
        if 0 <= at && at + 1 < a.len() {
            assert(same_ignoring_case(a[at], b[at]));
            assert(same_ignoring_case(a[at + 1], b[at + 1]));
            lemma_case_subrange(a, b, 0, at);
            lemma_case_subrange(a, b, at + 2, a.len() as int);
            lemma_case_group_count(a.take(at), b.take(at), false);
            lemma_case_group_count(a.skip(at + 2), b.skip(at + 2), true);
        }
    }
    if exists|at: int| compressed_at(a, at) {
        let at = choose|at: int| compressed_at(a, at);
        assert(compressed_at(b, at));
    }
    if exists|at: int| compressed_at(b, at) {
        let at = choose|at: int| compressed_at(b, at);
        assert(compressed_at(a, at));
    }
}

/// The cheap test on an address in text does not tell the cases apart.
pub proof fn lemma_case_precheck(a: Seq<u8>, b: Seq<u8>)
    requires
        case_equal(a, b),
    ensures
        precheck_ok(a) == precheck_ok(b),
{
    lemma_case_symmetric(a, b);
    if a.contains(COLON) {
        lemma_case_contains(a, b, COLON);
    }
    if b.contains(COLON) {
        lemma_case_contains(b, a, COLON);
    }
    if a.contains(DOT) {
        lemma_case_contains(a, b, DOT);
    }
    if b.contains(DOT) {
        lemma_case_contains(b, a, DOT);
    }
    if precheck_ok(a) {
        lemma_case_alphabet(a, b);
    }
    if precheck_ok(b) {
        lemma_case_alphabet(b, a);
    }
}

proof fn lemma_case_contains(a: Seq<u8>, b: Seq<u8>, byte: u8)
    requires
        case_equal(a, b),
        !ascii_letter(byte),
        a.contains(byte),
    ensures
        b.contains(byte),
{
    let i = choose|i: int| 0 <= i < a.len() && a[i] == byte;
    assert(same_ignoring_case(a[i], b[i]));
    assert(b[i] == byte);
}

proof fn lemma_case_alphabet(a: Seq<u8>, b: Seq<u8>)
    requires
        case_equal(a, b),
    ensures
        (forall|i: int|
            0 <= i < a.len() ==> ipv6_char(#[trigger] a[i]) || a[i] == DOT) ==> (
        forall|i: int| 0 <= i < b.len() ==> ipv6_char(#[trigger] b[i]) || b[i] == DOT),
        (forall|i: int| 0 <= i < a.len() ==> ipv4_char(#[trigger] a[i])) ==> (forall|
            i: int,
        | 0 <= i < b.len() ==> ipv4_char(#[trigger] b[i])),
{
    if forall|i: int|
        0 <= i < a.len() ==> ipv6_char(#[trigger] a[i]) || a[i] == DOT {
        assert forall|i: int| 0 <= i < b.len() implies ipv6_char(#[trigger] b[i])
            || b[i] == DOT by {
            assert(same_ignoring_case(a[i], b[i]));
            assert(ipv6_char(a[i]) || a[i] == DOT);
        }
    }
    if forall|i: int| 0 <= i < a.len() ==> ipv4_char(#[trigger] a[i]) {
        assert forall|i: int| 0 <= i < b.len() implies ipv4_char(#[trigger] b[i]) by {
            assert(same_ignoring_case(a[i], b[i]));
            assert(ipv4_char(a[i]));
        }
    }
}

/// The rules of an IP literal do not tell the cases apart.
pub proof fn lemma_case_ip_literal(a: Seq<u8>, b: Seq<u8>)
    requires
        case_equal(a, b),
    ensures
        bracketed(a) == bracketed(b),
        ip_literal_ok(a) == ip_literal_ok(b),
{
    if a.len() >= 2 {
        assert(same_ignoring_case(a[0], b[0]));
        assert(same_ignoring_case(a[a.len() - 1], b[a.len() - 1]));
        lemma_case_subrange(a, b, 1, a.len() - 1);
        let x = literal_interior(a);
        let y = literal_interior(b);
        lemma_case_precheck(x, y);
        lemma_case_ipv4(x, y);
        lemma_case_ipv6(x, y);
    }
}

/// The choice of the separating `@` does not tell the cases apart.
pub proof fn lemma_case_separator(a: Seq<u8>, b: Seq<u8>)
    requires
        case_equal(a, b),
    ensures
        has_separator(a) == has_separator(b),
        has_separator(a) ==> separator(a) == separator(b),
{
    assert forall|at: int| is_separator(a, at) == is_separator(b, at) by {
        if 0 <= at < a.len() {
            assert(same_ignoring_case(a[at], b[at]));
        }
    }
    if has_separator(a) {
        let any = choose|at: int| is_separator(a, at);
        assert(is_separator(b, any));
        lemma_separator_exists(a, any);
        let at = separator(a);
        assert(is_last_separator(b, at)) by {
            assert forall|later: int| at < later implies !is_separator(b, later) by {
                assert(!is_separator(a, later));
            }
        }
        lemma_separator_unique(b, at);
    }
    if has_separator(b) {
        let any = choose|at: int| is_separator(b, at);
        assert(is_separator(a, any));
    }
}

/// The address rules do not tell an ASCII letter from the same letter in the
/// other case: two addresses of ASCII bytes that are equal but for the case
/// of their letters get the same verdict.
pub proof fn law_case_symmetry(a: Seq<u8>, b: Seq<u8>)
    requires
        case_equal(a, b),
        all_ascii(a),
    ensures
        verdict(a) == verdict(b),
{
    lemma_case_separator(a, b);
    if has_separator(a) {
        let any = choose|at: int| is_separator(a, at);
        lemma_separator_exists(a, any);
        let at = separator(a);
        lemma_case_subrange(a, b, 0, at);
        lemma_case_subrange(a, b, at + 1, a.len() as int);
        lemma_case_local(local_part(a), local_part(b));
        let da = domain_part(a);
        let db = domain_part(b);
        lemma_case_domain(da, db);
        lemma_case_ip_literal(da, db);
        assert(all_ascii(da)) by {
            assert forall|i: int| 0 <= i < da.len() implies #[trigger] da[i] <= 127 by {
                assert(da[i] == a[at + 1 + i]);
            }
        }
        lemma_ascii_domain(da);
    }
}

} // verus!
