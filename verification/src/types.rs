//! The three-way verdict on a domain label or a domain part.

use vstd::prelude::*;

verus! {

/// What the label rules say of a label, or of a whole domain part.
///
/// `RequiresIdnCheck` is no final answer: the bytes have the shape of a label
/// but hold non-ASCII bytes, so the ASCII form of the name decides.
#[derive(Debug, Clone, Copy, PartialEq, Eq, Hash, Structural)]
pub enum ValidationResult {
    Valid,
    Invalid,
    RequiresIdnCheck,
}

impl ValidationResult {
    pub fn is_valid(self) -> (r: bool)
        ensures
            r == (self == ValidationResult::Valid),
    {
        matches!(self, ValidationResult::Valid)
    }

    pub fn is_invalid(self) -> (r: bool)
        ensures
            r == (self == ValidationResult::Invalid),
    {
        matches!(self, ValidationResult::Invalid)
    }

    pub fn requires_idn_check(self) -> (r: bool)
        ensures
            r == (self == ValidationResult::RequiresIdnCheck),
    {
        matches!(self, ValidationResult::RequiresIdnCheck)
    }
}

} // verus!
