//! The validator of whole addresses: it finds the separating `@` and joins
//! the verdicts on the two parts.

use crate::classifier::{AT, CLOSE_BRACKET, OPEN_BRACKET};
use crate::constants::{MAX_EMAIL_LENGTH, MIN_EMAIL_LENGTH};
use crate::domain::domain_result;
use crate::error::EmailValidationError;
use crate::idn::idn_verdict;
use crate::ip::{fast_ip_precheck, ip_text_ok, precheck_ok, validate_ip_bytes, MAX_IP_TEXT_LENGTH};
use crate::local_part::local_part_ok;
use crate::types::ValidationResult;
use vstd::prelude::*;
use vstd::string::StringSliceAdditionalSpecFns;
use vstd::utf8::encode_utf8;

verus! {

/// The address rules, as associated functions: the type holds no state.
pub struct EmailValidator;

/// An `@` at `at` can separate the two parts: it is neither the first nor the
/// last byte, so that neither part is empty.
pub open spec fn is_separator(s: Seq<u8>, at: int) -> bool {
    0 < at < s.len() - 1 && s[at] == AT
}

/// Some `@` of `s` can separate the two parts.
pub open spec fn has_separator(s: Seq<u8>) -> bool {
    exists|at: int| is_separator(s, at)
}

/// The `@` at `at` is the one that separates the two parts: the last that
/// can.
pub open spec fn is_last_separator(s: Seq<u8>, at: int) -> bool {
    is_separator(s, at) && forall|later: int| at < later ==> !is_separator(s, later)
}

/// The place of the separating `@`, where `s` has one.
pub open spec fn separator(s: Seq<u8>) -> int {
    choose|at: int| is_last_separator(s, at)
}

/// What stands before the separating `@`.
pub open spec fn local_part(s: Seq<u8>) -> Seq<u8> {
    s.take(separator(s))
}

/// What stands after the separating `@`.
pub open spec fn domain_part(s: Seq<u8>) -> Seq<u8> {
    s.skip(separator(s) + 1)
}

/// The domain has the shape of an IP literal: it opens with `[` and closes
/// with `]`.
pub open spec fn bracketed(domain: Seq<u8>) -> bool {
    domain.len() >= 2 && domain.first() == OPEN_BRACKET && domain.last() == CLOSE_BRACKET
}

/// What stands between the brackets of an IP literal.
pub open spec fn literal_interior(domain: Seq<u8>) -> Seq<u8> {
    domain.subrange(1, domain.len() - 1)
}

/// A well-formed IP literal: brackets around an address of at most 45 bytes
/// that passes the cheap test and is an IPv4 or an IPv6 address.
pub open spec fn ip_literal_ok(domain: Seq<u8>) -> bool {
    &&& 3 <= domain.len() <= MAX_IP_TEXT_LENGTH + 2
    &&& bracketed(domain)
    &&& precheck_ok(literal_interior(domain))
    &&& ip_text_ok(literal_interior(domain))
}

/// The verdict on a domain part. A domain that the label rules find valid is
/// accepted. One that they find invalid is accepted if it is a well-formed
/// IP literal. One that awaits its ASCII form is converted, once.
pub open spec fn domain_verdict(domain: Seq<u8>) -> Result<(), EmailValidationError> {
    match domain_result(domain) {
        ValidationResult::Valid => Ok(()),
        ValidationResult::Invalid => if ip_literal_ok(domain) {
            Ok(())
        } else if bracketed(domain) {
            Err(EmailValidationError::InvalidIpLiteral)
        } else {
            Err(EmailValidationError::InvalidDomainPart)
        },
        ValidationResult::RequiresIdnCheck => idn_verdict(domain),
    }
}

/// The verdict on an address: `Ok`, or the first rule that it breaks, in
/// this order: the length of the whole, the separating `@`, the local part,
/// the domain part.
pub open spec fn verdict(s: Seq<u8>) -> Result<(), EmailValidationError> {
    if s.len() == 0 {
        Err(EmailValidationError::Empty)
    } else if s.len() < MIN_EMAIL_LENGTH {
        Err(EmailValidationError::TooShort)
    } else if s.len() > MAX_EMAIL_LENGTH {
        Err(EmailValidationError::TooLong)
    } else if !has_separator(s) {
        Err(EmailValidationError::NoAtSymbol)
    } else if !local_part_ok(local_part(s)) {
        Err(EmailValidationError::InvalidUserPart)
    } else {
        domain_verdict(domain_part(s))
    }
}

/// The bytes are a well-formed address.
pub open spec fn valid_email(s: Seq<u8>) -> bool {
    verdict(s) is Ok
}

/// Where `at` is the last separator of `s`, it is the one that `separator`
/// names.
pub proof fn lemma_separator_unique(s: Seq<u8>, at: int)
    requires
        is_last_separator(s, at),
    ensures
        has_separator(s),
        separator(s) == at,
{
    let chosen = separator(s);
    assert(is_last_separator(s, chosen));
    if chosen < at {
        assert(!is_separator(s, at));
    }
    if at < chosen {
        assert(!is_separator(s, chosen));
    }
}

/// Where some `@` can separate the two parts, there is a last one that can:
/// the one that `separator` names. `at` is any of them.
pub proof fn lemma_separator_exists(s: Seq<u8>, at: int)
    requires
        is_separator(s, at),
    ensures
        is_last_separator(s, separator(s)),
    decreases s.len() - at,
{
    if exists|later: int| at < later && is_separator(s, later) {
        let later = choose|later: int| at < later && is_separator(s, later);
        lemma_separator_exists(s, later);
    } else {
        assert(is_last_separator(s, at));
    }
}

impl EmailValidator {
    /// Whether `bytes` is a well-formed IP literal.
    pub fn validate_ip_literal(bytes: &[u8]) -> (r: bool)
        ensures
            r == ip_literal_ok(bytes@),
    {
        let len: usize = bytes.len();
        if len < 3 || len > MAX_IP_TEXT_LENGTH + 2 {
            return false;
        }
        if bytes[0] != OPEN_BRACKET || bytes[len - 1] != CLOSE_BRACKET {
            return false;
        }
        let ip_bytes: &[u8] = &bytes[1..len - 1];
        if !fast_ip_precheck(ip_bytes) {
            return false;
        }
        validate_ip_bytes(ip_bytes)
    }

    /// The place of the `@` that separates the two parts: the last one that
    /// leaves a byte on either side.
    pub fn find_last_at_position(bytes: &[u8]) -> (r: Option<usize>)
        ensures
            match r {
                Some(at) => is_last_separator(bytes@, at as int),
                None => !has_separator(bytes@),
            },
    {
        let len: usize = bytes.len();
        if len < MIN_EMAIL_LENGTH {
            return None;
        }
        let mut pos: usize = len;
        while pos > 1
            invariant
                pos <= len == bytes@.len(),
                len >= 3,
                forall|later: int| pos <= later ==> !is_separator(bytes@, later),
            decreases pos,
        {
            pos -= 1;
            if bytes[pos] == AT && pos < len - 1 {
                return Some(pos);
            }
        }
        None
    }

    /// The verdict on a domain part.
    pub fn check_domain(domain: &[u8]) -> (r: Result<(), EmailValidationError>)
        ensures
            r == domain_verdict(domain@),
    {
        match Self::validate_domain_part(domain) {
            ValidationResult::Valid => Ok(()),
            ValidationResult::Invalid => {
                if Self::validate_ip_literal(domain) {
                    Ok(())
                } else if domain.len() >= 2 && domain[0] == OPEN_BRACKET && domain[domain.len()
                    - 1] == CLOSE_BRACKET {
                    Err(EmailValidationError::InvalidIpLiteral)
                } else {
                    Err(EmailValidationError::InvalidDomainPart)
                }
            },
            ValidationResult::RequiresIdnCheck => Self::check_idn_domain(domain),
        }
    }

    /// The verdict on an address: `Ok`, or the first rule that it breaks.
    pub fn check(email_bytes: &[u8]) -> (r: Result<(), EmailValidationError>)
        ensures
            r == verdict(email_bytes@),
    {
        let len: usize = email_bytes.len();
        if len == 0 {
            return Err(EmailValidationError::Empty);
        }
        if len < MIN_EMAIL_LENGTH {
            return Err(EmailValidationError::TooShort);
        }
        if len > MAX_EMAIL_LENGTH {
            return Err(EmailValidationError::TooLong);
        }
        let at_pos: usize = match Self::find_last_at_position(email_bytes) {
            Some(pos) => pos,
            None => {
                return Err(EmailValidationError::NoAtSymbol);
            },
        };
        proof {
            lemma_separator_unique(email_bytes@, at_pos as int);
        }
        let user_bytes: &[u8] = &email_bytes[0..at_pos];
        let domain_bytes: &[u8] = &email_bytes[at_pos + 1..len];
        proof {
            assert(user_bytes@ == local_part(email_bytes@));
            assert(domain_bytes@ == domain_part(email_bytes@));
        }
        if !Self::validate_user_part(user_bytes) {
            return Err(EmailValidationError::InvalidUserPart);
        }
        Self::check_domain(domain_bytes)
    }

    /// Whether `email_bytes` is a well-formed address.
    pub fn validate(email_bytes: &[u8]) -> (r: bool)
        ensures
            r == valid_email(email_bytes@),
    {
        Self::check(email_bytes).is_ok()
    }

    /// Whether the bytes of `email` are a well-formed address.
    pub fn validate_str(email: &str) -> (r: bool)
        ensures
            r == valid_email(email.spec_bytes()),
    {
        Self::validate(email.as_bytes())
    }

    /// Whether the bytes of `email` are a well-formed address.
    pub fn validate_string(email: &String) -> (r: bool)
        ensures
            r == valid_email(encode_utf8(email@)),
    {
        Self::validate(email.as_str().as_bytes())
    }
}

} // verus!
