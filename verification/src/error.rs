//! The reasons for which an address is rejected.

use vstd::prelude::*;

verus! {

/// Why an address was rejected: the first rule that it broke.
#[derive(Debug, Clone, Copy, PartialEq, Eq, Hash, Structural)]
pub enum EmailValidationError {
    /// The address has no bytes.
    Empty,
    /// The address has one or two bytes.
    TooShort,
    /// The address has more than 320 bytes.
    TooLong,
    /// No `@` has a byte before it and a byte after it.
    NoAtSymbol,
    /// The address holds a second `@`. The validator never counts them: the
    /// part that holds the second `@` fails its own rules, so it reports
    /// that part and not this kind.
    MultipleAtSymbols,
    /// The local part is not well-formed.
    InvalidUserPart,
    /// The domain part breaks the label rules and has not the shape of an IP
    /// literal, or its ASCII form breaks the label rules.
    InvalidDomainPart,
    /// The domain part has the shape of an IP literal, with its brackets, but
    /// holds no IP address.
    InvalidIpLiteral,
    /// The domain part has non-ASCII bytes and no ASCII form.
    IdnProcessingFailed,
}

impl EmailValidationError {
    /// The fixed description of each kind.
    pub open spec fn description(self) -> Seq<char> {
        match self {
            EmailValidationError::Empty => "Email is empty"@,
            EmailValidationError::TooShort => "Email is too short"@,
            EmailValidationError::TooLong => "Email is too long"@,
            EmailValidationError::NoAtSymbol => "Email missing @ symbol"@,
            EmailValidationError::MultipleAtSymbols => "Email has multiple @ symbols"@,
            EmailValidationError::InvalidUserPart => "Invalid user part"@,
            EmailValidationError::InvalidDomainPart => "Invalid domain part"@,
            EmailValidationError::InvalidIpLiteral => "Invalid IP literal"@,
            EmailValidationError::IdnProcessingFailed => "IDN processing failed"@,
        }
    }

    pub fn as_str(self) -> (r: &'static str)
        ensures
            r@ == self.description(),
    {
        match self {
            EmailValidationError::Empty => "Email is empty",
            EmailValidationError::TooShort => "Email is too short",
            EmailValidationError::TooLong => "Email is too long",
            EmailValidationError::NoAtSymbol => "Email missing @ symbol",
            EmailValidationError::MultipleAtSymbols => "Email has multiple @ symbols",
            EmailValidationError::InvalidUserPart => "Invalid user part",
            EmailValidationError::InvalidDomainPart => "Invalid domain part",
            EmailValidationError::InvalidIpLiteral => "Invalid IP literal",
            EmailValidationError::IdnProcessingFailed => "IDN processing failed",
        }
    }
}

} // verus!
