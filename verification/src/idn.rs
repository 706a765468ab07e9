//! Internationalized domain names: the step from a name with non-ASCII bytes
//! to its ASCII form, which the `idna` crate computes, and the verdict on
//! that form.

use crate::domain::domain_result;
use crate::error::EmailValidationError;
use crate::types::ValidationResult;
use crate::validator::EmailValidator;
use vstd::prelude::*;
use vstd::string::StringSliceAdditionalSpecFns;
use vstd::utf8::{decode_utf8, encode_utf8, encode_utf8_decode_utf8, valid_utf8};

verus! {

/// The error of `idna::domain_to_ascii`. It holds nothing: it only says that
/// the name has no ASCII form.
#[verifier::external_type_specification]
#[verifier::external_body]
pub struct ExIdnaErrors(idna::Errors);

/// The error of `core::str::from_utf8`.
#[verifier::external_type_specification]
#[verifier::external_body]
pub struct ExUtf8Error(core::str::Utf8Error);

/// The ASCII form that `idna::domain_to_ascii` gives to a domain name, or
/// `None` where it reports an error. Nothing is stated of it but that it is a
/// function of the name.
pub uninterp spec fn ascii_form(domain: Seq<char>) -> Option<Seq<char>>;

/// `idna::domain_to_ascii` maps and normalizes a domain name as UTS #46
/// prescribes and writes each label with a non-ASCII character in Punycode.
/// It reads its argument and tables compiled into the crate, nothing else, so
/// its result is a function of the name: this contract gives that function
/// the name `ascii_form`, and claims no more.
pub assume_specification[ idna::domain_to_ascii ](domain: &str) -> (r: Result<
    String,
    idna::Errors,
>)
    ensures
        match r {
            Ok(ascii) => ascii_form(domain@) == Some(ascii@),
            Err(_) => ascii_form(domain@) is None,
        },
;

/// `core::str::from_utf8` succeeds exactly on well-formed UTF-8, and the
/// string that it then returns has the bytes that it was given.
pub assume_specification<'a>[ core::str::from_utf8 ](v: &'a [u8]) -> (r: Result<
    &'a str,
    core::str::Utf8Error,
>)
    ensures
        r is Ok == valid_utf8(v@),
        r is Ok ==> r->Ok_0.spec_bytes() == v@,
;

/// The verdict on a domain that awaited its ASCII form, given what the
/// conversion came to: the conversion must have succeeded, and the label
/// rules must find the ASCII form valid as it stands.
pub open spec fn converted_verdict(ascii: Option<Seq<char>>) -> Result<(), EmailValidationError> {
    match ascii {
        None => Err(EmailValidationError::IdnProcessingFailed),
        Some(name) => if domain_result(encode_utf8(name)) == ValidationResult::Valid {
            Ok(())
        } else {
            Err(EmailValidationError::InvalidDomainPart)
        },
    }
}

/// The verdict on a domain that awaits its ASCII form: its bytes must be
/// well-formed UTF-8, so that they are a name that can be converted, and the
/// rest is up to the converted name.
pub open spec fn idn_verdict(domain: Seq<u8>) -> Result<(), EmailValidationError> {
    if valid_utf8(domain) {
        converted_verdict(ascii_form(decode_utf8(domain)))
    } else {
        Err(EmailValidationError::IdnProcessingFailed)
    }
}

impl EmailValidator {
    /// The verdict on a domain whose conversion to ASCII came to `converted`.
    pub fn check_converted_domain(converted: Result<String, idna::Errors>) -> (r: Result<
        (),
        EmailValidationError,
    >)
        ensures
            r == converted_verdict(
                match converted {
                    Ok(ascii) => Some(ascii@),
                    Err(_) => None,
                },
            ),
    {
        match converted {
            Ok(ascii) => {
                if Self::validate_domain_part(ascii.as_str().as_bytes()).is_valid() {
                    Ok(())
                } else {
                    Err(EmailValidationError::InvalidDomainPart)
                }
            },
            Err(_) => Err(EmailValidationError::IdnProcessingFailed),
        }
    }

    /// The verdict on a domain that awaits its ASCII form: converts it, once,
    /// and judges the result.
    pub fn check_idn_domain(domain: &[u8]) -> (r: Result<(), EmailValidationError>)
        ensures
            r == idn_verdict(domain@),
    {
        match core::str::from_utf8(domain) {
            Ok(name) => {
                proof {
                    encode_utf8_decode_utf8(name@);
                }
                Self::check_converted_domain(idna::domain_to_ascii(name))
            },
            Err(_) => Err(EmailValidationError::IdnProcessingFailed),
        }
    }
}

} // verus!
