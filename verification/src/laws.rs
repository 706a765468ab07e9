//! What holds of every address: consequences of the rules, proved from the
//! specification functions that the validators compute.

use crate::classifier::{
    alphanumeric, domain_char, user_char, AT, CLOSE_BRACKET, COLON, DOT, HYPHEN, OPEN_BRACKET,
};
use crate::constants::{
    MAX_DOMAIN_LENGTH, MAX_EMAIL_LENGTH, MAX_LABEL_LENGTH, MAX_USER_LENGTH, MIN_EMAIL_LENGTH,
};
use crate::domain::{
    bad_interior_at, domain_result, label_is, label_result, labels, non_ascii_interior_at,
};
use crate::error::EmailValidationError;
use crate::fields::{
    lemma_empty_field, lemma_field_bytes, lemma_field_lengths, lemma_source_bytes,
    lemma_split_adjacent, lemma_split_leading, lemma_split_nonempty, lemma_split_trailing,
    pair_at, split,
};
use crate::ip::{ip_text_ok, ipv4_char, ipv6_char, precheck_ok};
use crate::ipv4::{is_ipv4_text, lemma_ipv4_alphabet, lemma_ipv4_length, lemma_ipv4_no_dot_pair};
use crate::ipv6::{is_ipv6_text, lemma_ipv6_alphabet, lemma_ipv6_length, lemma_ipv6_no_dot_pair};
use crate::local_part::{local_part_ok, local_syntax_ok};
use crate::types::ValidationResult;
use crate::validator::{
    bracketed, domain_part, domain_verdict, has_separator, ip_literal_ok, is_separator,
    lemma_separator_exists, lemma_separator_unique, literal_interior, local_part, separator,
    valid_email, verdict,
};
use vstd::prelude::*;

verus! {

/// The verdict on an address is a function of its bytes: whatever holds
/// them, and however often it is asked, equal bytes get equal verdicts.
pub proof fn law_determinism(a: Seq<u8>, b: Seq<u8>)
    requires
        a =~= b,
    ensures
        verdict(a) == verdict(b),
        valid_email(a) == valid_email(b),
{
}

/// No address is rejected for holding more than one `@`: a second `@` breaks
/// the rules of the part that holds it, and the verdict names that part.
pub proof fn law_second_at_is_reported_by_its_part(s: Seq<u8>)
    ensures
        verdict(s) != Err::<(), EmailValidationError>(EmailValidationError::MultipleAtSymbols),
{
}

/// A local part of more than 64 bytes is rejected, whatever it holds, and
/// one of at most 64 bytes is accepted exactly when its content keeps the
/// rules.
pub proof fn law_local_part_length(local: Seq<u8>)
    ensures
        local.len() > MAX_USER_LENGTH ==> !local_part_ok(local),
        local.len() <= MAX_USER_LENGTH ==> local_part_ok(local) == local_syntax_ok(local),
{
}

/// A label of more than 63 bytes is invalid, whatever it holds, and a label
/// of 1 to 63 letters and digits is valid.
pub proof fn law_label_length(label: Seq<u8>)
    ensures
        label.len() > MAX_LABEL_LENGTH ==> label_result(label) == ValidationResult::Invalid,
        1 <= label.len() <= MAX_LABEL_LENGTH && (forall|i: int|
            0 <= i < label.len() ==> alphanumeric(#[trigger] label[i])) ==> label_result(label)
            == ValidationResult::Valid,
{
    if 1 <= label.len() <= MAX_LABEL_LENGTH && (forall|i: int|
        0 <= i < label.len() ==> alphanumeric(#[trigger] label[i])) {
        assert forall|i: int| !bad_interior_at(label, i) by {
            if 0 < i < label.len() - 1 {
                assert(alphanumeric(label[i]));
            }
        }
        assert forall|i: int| !non_ascii_interior_at(label, i) by {
            if 0 < i < label.len() - 1 {
                assert(alphanumeric(label[i]));
            }
        }
    }
}

/// An address is rejected as too long exactly when it has more than 320
/// bytes, whatever it holds.
pub proof fn law_total_length(s: Seq<u8>)
    ensures
        (s.len() > MAX_EMAIL_LENGTH) == (verdict(s) == Err::<(), EmailValidationError>(
            EmailValidationError::TooLong,
        )),
        s.len() > MAX_EMAIL_LENGTH ==> !valid_email(s),
{
}

/// A local part that starts with a dot, ends with a dot, or holds two dots
/// side by side is rejected.
pub proof fn law_local_part_dots(local: Seq<u8>, at: int)
    requires
        local.len() > 0,
        local.first() == DOT || local.last() == DOT || pair_at(local, DOT, at),
    ensures
        !local_part_ok(local),
{
}

/// A label that holds a dot anywhere is invalid: so is one that starts with
/// a dot, ends with a dot, or holds two dots side by side.
pub proof fn law_label_dots(label: Seq<u8>, at: int)
    requires
        0 <= at < label.len(),
        label[at] == DOT,
    ensures
        label_result(label) == ValidationResult::Invalid,
{
    if 0 < at < label.len() - 1 {
        assert(bad_interior_at(label, at));
    }
}

/// A domain with one invalid label is invalid.
pub proof fn lemma_invalid_label(domain: Seq<u8>, j: int)
    requires
        label_is(labels(domain), j, ValidationResult::Invalid),
    ensures
        domain_result(domain) == ValidationResult::Invalid,
{
}

/// A domain that starts with a dot, ends with a dot, or holds two dots side
/// by side, at `at` and `at + 1`, is invalid.
pub proof fn law_domain_dots(domain: Seq<u8>, at: int)
    requires
        domain.len() > 0,
        domain.first() == DOT || domain.last() == DOT || pair_at(domain, DOT, at),
    ensures
        domain_result(domain) == ValidationResult::Invalid,
{
    let all = labels(domain);
    lemma_split_nonempty(domain, DOT);
    if domain.first() == DOT {
        lemma_split_leading(domain, DOT);
        lemma_invalid_label(domain, 0);
    } else if domain.last() == DOT {
        lemma_split_trailing(domain, DOT);
        lemma_invalid_label(domain, all.len() - 1);
    } else {
        lemma_split_adjacent(domain, DOT, at);
        lemma_invalid_label(domain, split(domain.take(at), DOT).len() as int);
    }
}

/// A label that starts or ends with a hyphen is invalid.
pub proof fn law_label_hyphen_edges(label: Seq<u8>)
    requires
        label.len() > 0,
        label.first() == HYPHEN || label.last() == HYPHEN,
    ensures
        label_result(label) == ValidationResult::Invalid,
{
}

/// A hyphen inside a label is accepted: a valid label stays valid when a
/// byte between its first and its last becomes a hyphen.
pub proof fn law_label_interior_hyphen(label: Seq<u8>, at: int)
    requires
        label_result(label) == ValidationResult::Valid,
        0 < at < label.len() - 1,
    ensures
        label_result(label.update(at, HYPHEN)) == ValidationResult::Valid,
{
    let changed = label.update(at, HYPHEN);
    assert forall|i: int| !bad_interior_at(changed, i) by {
        if i != at {
            assert(!bad_interior_at(label, i));
        }
    }
    assert forall|i: int| !non_ascii_interior_at(changed, i) by {
        if i != at {
            assert(!non_ascii_interior_at(label, i));
        }
    }
}

/// The bytes of a domain that the label rules do not find invalid: dots,
/// and bytes that a label may hold, which are letters, digits, hyphens and
/// non-ASCII bytes.
pub proof fn lemma_label_alphabet(domain: Seq<u8>)
    requires
        domain_result(domain) != ValidationResult::Invalid,
    ensures
        forall|i: int|
            0 <= i < domain.len() ==> #[trigger] domain[i] == DOT || domain[i] > 127
                || domain_char(domain[i]),
{
    let all = labels(domain);
    lemma_source_bytes(domain, DOT);
    assert forall|i: int| 0 <= i < domain.len() implies #[trigger] domain[i] == DOT || domain[i]
        > 127 || domain_char(domain[i]) by {
        if domain[i] != DOT {
            let j = choose|j: int| 0 <= j < all.len() && (#[trigger] all[j]).contains(domain[i]);
            let k = choose|k: int| 0 <= k < all[j].len() && all[j][k] == domain[i];
            assert(!label_is(all, j, ValidationResult::Invalid));
            if 0 < k < all[j].len() - 1 {
                assert(!bad_interior_at(all[j], k));
            }
        }
    }
}

/// The bytes of a well-formed IP literal: the brackets at its ends, and
/// between them hexadecimal digits, colons and dots.
pub proof fn lemma_literal_alphabet(domain: Seq<u8>)
    requires
        ip_literal_ok(domain),
    ensures
        domain.first() == OPEN_BRACKET,
        domain.last() == CLOSE_BRACKET,
        forall|i: int|
            0 < i < domain.len() - 1 ==> ipv6_char(#[trigger] domain[i]) || domain[i] == DOT,
{
    let inner = literal_interior(domain);
    assert forall|i: int| 0 < i < domain.len() - 1 implies ipv6_char(#[trigger] domain[i])
        || domain[i] == DOT by {
        assert(inner[i - 1] == domain[i]);
        assert(ipv4_char(inner[i - 1]) ==> ipv6_char(inner[i - 1]) || inner[i - 1] == DOT);
    }
}

/// No accepted domain is empty or holds an `@`.
pub proof fn lemma_accepted_domain(domain: Seq<u8>)
    requires
        domain_verdict(domain) is Ok,
    ensures
        domain.len() > 0,
        forall|i: int| 0 <= i < domain.len() ==> #[trigger] domain[i] != AT,
{
    if domain_result(domain) == ValidationResult::Invalid {
        lemma_literal_alphabet(domain);
        assert forall|i: int| 0 <= i < domain.len() implies #[trigger] domain[i] != AT by {
            if 0 < i < domain.len() - 1 {
                assert(ipv6_char(domain[i]) || domain[i] == DOT);
            }
        }
    } else {
        lemma_label_alphabet(domain);
    }
}

/// An accepted domain neither starts nor ends with a dot, and holds no two
/// dots side by side.
pub proof fn lemma_accepted_domain_dots(domain: Seq<u8>)
    requires
        domain_verdict(domain) is Ok,
    ensures
        domain.len() > 0,
        domain.first() != DOT,
        domain.last() != DOT,
        forall|i: int| !pair_at(domain, DOT, i),
{
    lemma_accepted_domain(domain);
    if domain_result(domain) == ValidationResult::Invalid {
        let inner = literal_interior(domain);
        assert forall|i: int| !pair_at(domain, DOT, i) by {
            if pair_at(domain, DOT, i) {
                assert(pair_at(inner, DOT, i - 1));
                lemma_ipv4_no_dot_pair(inner, i - 1);
                lemma_ipv6_no_dot_pair(inner, i - 1);
            }
        }
    } else {
        assert forall|i: int| !pair_at(domain, DOT, i) by {
            if pair_at(domain, DOT, i) {
                law_domain_dots(domain, i);
            }
        }
        if domain.first() == DOT || domain.last() == DOT {
            law_domain_dots(domain, 0);
        }
    }
}

/// In an accepted address no dot stands at either end, beside the
/// separator, or beside another dot.
pub proof fn law_accepted_dots(s: Seq<u8>)
    requires
        valid_email(s),
    ensures
        s.first() != DOT,
        s.last() != DOT,
        s[separator(s) - 1] != DOT,
        s[separator(s) + 1] != DOT,
        forall|i: int| !pair_at(s, DOT, i),
{
    let at = separator(s);
    let local = local_part(s);
    let domain = domain_part(s);
    law_single_separator(s);
    lemma_accepted_domain_dots(domain);
    assert(local.first() == s.first());
    assert(local.last() == s[at - 1]);
    assert(domain.first() == s[at + 1]);
    assert(domain.last() == s.last());
    assert forall|i: int| !pair_at(s, DOT, i) by {
        if pair_at(s, DOT, i) {
            if i + 1 < at {
                assert(pair_at(local, DOT, i));
            } else {
                assert(i > at);
                assert(pair_at(domain, DOT, i - at - 1));
            }
        }
    }
}

/// The limit of 45 bytes rejects no address: no IPv4 or IPv6 address is
/// longer.
pub proof fn law_ip_text_length(s: Seq<u8>)
    ensures
        ip_text_ok(s) == (is_ipv4_text(s) || is_ipv6_text(s)),
{
    if is_ipv4_text(s) {
        lemma_ipv4_length(s);
    }
    if is_ipv6_text(s) {
        lemma_ipv6_length(s);
    }
}

/// The cheap test rejects no address: every IPv4 or IPv6 address of at most
/// 45 bytes passes it.
pub proof fn law_precheck_passes_addresses(s: Seq<u8>)
    requires
        ip_text_ok(s),
    ensures
        precheck_ok(s),
{
    if is_ipv4_text(s) {
        lemma_ipv4_alphabet(s);
        assert(!s.contains(COLON)) by {
            if s.contains(COLON) {
                let i = choose|i: int| 0 <= i < s.len() && s[i] == COLON;
                assert(ipv4_char(s[i]));
            }
        }
        assert forall|i: int| 0 <= i < s.len() implies ipv4_char(#[trigger] s[i]) by {}
    } else {
        lemma_ipv6_alphabet(s);
        assert forall|i: int| 0 <= i < s.len() implies ipv6_char(#[trigger] s[i]) || s[i]
            == DOT by {}
    }
}

/// So an IP literal is well-formed exactly when it is an IPv4 or an IPv6
/// address between brackets: neither the limits on its length nor the cheap
/// test reject one.
pub proof fn law_ip_literal(domain: Seq<u8>)
    ensures
        ip_literal_ok(domain) == (bracketed(domain) && (is_ipv4_text(literal_interior(domain))
            || is_ipv6_text(literal_interior(domain)))),
{
    let inner = literal_interior(domain);
    law_ip_text_length(inner);
    if bracketed(domain) && ip_text_ok(inner) {
        law_precheck_passes_addresses(inner);
    }
}

/// No byte of a well-formed IP literal is a hyphen.
pub proof fn lemma_literal_has_no_hyphen(domain: Seq<u8>, b: u8)
    requires
        ip_literal_ok(domain),
        domain.contains(b),
    ensures
        b != HYPHEN,
{
    lemma_literal_alphabet(domain);
    let i = choose|i: int| 0 <= i < domain.len() && domain[i] == b;
    if 0 < i < domain.len() - 1 {
        assert(ipv6_char(domain[i]) || domain[i] == DOT);
    }
}

/// Every label of the domain of an accepted address is 1 to 63 bytes long
/// and neither starts nor ends with a hyphen.
pub proof fn law_accepted_labels(s: Seq<u8>, j: int)
    requires
        valid_email(s),
        0 <= j < labels(domain_part(s)).len(),
    ensures
        1 <= labels(domain_part(s))[j].len() <= MAX_LABEL_LENGTH,
        labels(domain_part(s))[j].first() != HYPHEN,
        labels(domain_part(s))[j].last() != HYPHEN,
{
    let domain = domain_part(s);
    let all = labels(domain);
    let label = all[j];
    lemma_accepted_domain_dots(domain);
    if domain_result(domain) == ValidationResult::Invalid {
        lemma_field_lengths(domain, DOT);
        if label.len() == 0 {
            lemma_empty_field(domain, DOT, j);
        }
        lemma_field_bytes(domain, DOT);
        assert(domain.contains(all[j][0]));
        assert(domain.contains(all[j][label.len() - 1]));
        lemma_literal_has_no_hyphen(domain, label.first());
        lemma_literal_has_no_hyphen(domain, label.last());
    } else {
        assert(!label_is(all, j, ValidationResult::Invalid));
    }
}

/// An accepted address has exactly one `@`. It is the separator, which has a
/// byte before it and a byte after it.
pub proof fn law_single_separator(s: Seq<u8>)
    requires
        valid_email(s),
    ensures
        has_separator(s),
        0 < separator(s) < s.len() - 1,
        s[separator(s)] == AT,
        forall|i: int| 0 <= i < s.len() && s[i] == AT ==> i == separator(s),
{
    let at = separator(s);
    let any = choose|any: int| is_separator(s, any);
    lemma_separator_exists(s, any);
    let local = local_part(s);
    let domain = domain_part(s);
    lemma_accepted_domain(domain);
    assert forall|i: int| 0 <= i < s.len() && s[i] == AT implies i == at by {
        if i < at {
            assert(user_char(local[i]));
        } else if i > at {
            assert(domain[i - at - 1] == s[i]);
        }
    }
}

/// The lengths of an accepted address: 3 to 320 bytes in all, of which 1 to
/// 64 before the separator and 1 to 255 after it.
pub proof fn law_accepted_lengths(s: Seq<u8>)
    requires
        valid_email(s),
    ensures
        MIN_EMAIL_LENGTH <= s.len() <= MAX_EMAIL_LENGTH,
        1 <= local_part(s).len() <= MAX_USER_LENGTH,
        1 <= domain_part(s).len() <= MAX_DOMAIN_LENGTH,
        local_part(s).len() + 1 + domain_part(s).len() == s.len(),
{
    law_single_separator(s);
    lemma_accepted_domain(domain_part(s));
}

/// An address put together from a well-formed local part, an `@` and an
/// accepted domain is accepted, if it is no longer than 320 bytes.
pub proof fn law_composition(local: Seq<u8>, domain: Seq<u8>)
    requires
        local_part_ok(local),
        domain_verdict(domain) is Ok,
        local.len() + 1 + domain.len() <= MAX_EMAIL_LENGTH,
    ensures
        valid_email(local + seq![AT] + domain),
{
    let s = local + seq![AT] + domain;
    let at = local.len() as int;
    lemma_accepted_domain(domain);
    assert(is_separator(s, at));
    assert forall|later: int| at < later implies !is_separator(s, later) by {
        if later < s.len() {
            assert(s[later] == domain[later - at - 1]);
        }
    }
    lemma_separator_unique(s, at);
    assert(local_part(s) == local);
    assert(domain_part(s) == domain);
}

} // verus!
