//! Syntactic validation of email addresses.
//!
//! An address is a local part, one separating `@`, and a domain part. The
//! domain part is a sequence of dot-separated labels, a bracketed IPv4 or IPv6
//! literal, or an internationalized name that is accepted after conversion to
//! its ASCII form. Every rule is stated as a specification function on the
//! address bytes, and each executable check is proved to compute it.

pub mod case;
pub mod classifier;
pub mod constants;
pub mod domain;
pub mod error;
pub mod fields;
pub mod idn;
pub mod ip;
pub mod ipv4;
pub mod ipv6;
pub mod laws;
pub mod local_part;
pub mod traits;
pub mod types;
pub mod validator;

pub use error::EmailValidationError;
pub use traits::ValidateEmail;
pub use types::ValidationResult;
pub use validator::EmailValidator;

use validator::valid_email;
use vstd::prelude::*;
use vstd::string::StringSliceAdditionalSpecFns;

verus! {

/// Whether the bytes of `email` are a well-formed address.
pub fn validate_email(email: &str) -> (r: bool)
    ensures
        r == valid_email(email.spec_bytes()),
{
    EmailValidator::validate_str(email)
}

/// Whether `email` is a well-formed address.
pub fn validate_email_bytes(email: &[u8]) -> (r: bool)
    ensures
        r == valid_email(email@),
{
    EmailValidator::validate(email)
}

} // verus!
