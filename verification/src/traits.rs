//! Validation as a method of the values that hold an address.

use crate::validator::{valid_email, EmailValidator};
use vstd::prelude::*;
use vstd::string::StringSliceAdditionalSpecFns;
use vstd::utf8::encode_utf8;

verus! {

/// Values that hold an address, or may hold one.
pub trait ValidateEmail {
    /// What `validate_email` answers.
    spec fn is_valid_email(&self) -> bool;

    fn validate_email(&self) -> (r: bool)
        ensures
            r == self.is_valid_email(),
    ;
}

impl ValidateEmail for str {
    open spec fn is_valid_email(&self) -> bool {
        valid_email(self.spec_bytes())
    }

    fn validate_email(&self) -> (r: bool) {
        EmailValidator::validate_str(self)
    }
}

impl ValidateEmail for String {
    open spec fn is_valid_email(&self) -> bool {
        valid_email(encode_utf8(self@))
    }

    fn validate_email(&self) -> (r: bool) {
        EmailValidator::validate_string(self)
    }
}

impl ValidateEmail for &str {
    open spec fn is_valid_email(&self) -> bool {
        valid_email(self.spec_bytes())
    }

    fn validate_email(&self) -> (r: bool) {
        EmailValidator::validate_str(self)
    }
}

/// No value is no address to object to: `None` is valid.
impl<T> ValidateEmail for Option<T> where T: ValidateEmail {
    open spec fn is_valid_email(&self) -> bool {
        match self {
            Some(email) => email.is_valid_email(),
            None => true,
        }
    }

    fn validate_email(&self) -> (r: bool) {
        match self {
            Some(email) => email.validate_email(),
            None => true,
        }
    }
}

impl<T> ValidateEmail for Box<T> where T: ValidateEmail {
    open spec fn is_valid_email(&self) -> bool {
        (**self).is_valid_email()
    }

    fn validate_email(&self) -> (r: bool) {
        (**self).validate_email()
    }
}

impl ValidateEmail for [u8] {
    open spec fn is_valid_email(&self) -> bool {
        valid_email(self@)
    }

    fn validate_email(&self) -> (r: bool) {
        EmailValidator::validate(self)
    }
}

impl ValidateEmail for &[u8] {
    open spec fn is_valid_email(&self) -> bool {
        valid_email(self@)
    }

    fn validate_email(&self) -> (r: bool) {
        EmailValidator::validate(self)
    }
}

impl ValidateEmail for Vec<u8> {
    open spec fn is_valid_email(&self) -> bool {
        valid_email(self@)
    }

    fn validate_email(&self) -> (r: bool) {
        EmailValidator::validate(self.as_slice())
    }
}

} // verus!
