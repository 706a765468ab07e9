//! The rules for the domain part: what stands after the separating `@`.

use crate::classifier::{alphanumeric, domain_char, DOT};
use crate::constants::{MAX_DOMAIN_LENGTH, MAX_LABEL_LENGTH};
use crate::fields::{lemma_split_at_first, lemma_split_single, split};
use crate::laws::law_domain_dots;
use crate::types::ValidationResult;
use crate::validator::EmailValidator;
use vstd::prelude::*;

verus! {

/// The byte at `i` stands inside the label, away from both ends, is ASCII,
/// and is neither a letter, a digit nor a hyphen.
pub open spec fn bad_interior_at(label: Seq<u8>, i: int) -> bool {
    0 < i < label.len() - 1 && label[i] <= 127 && !domain_char(label[i])
}

/// The byte at `i` stands inside the label, away from both ends, and is not
/// ASCII.
pub open spec fn non_ascii_interior_at(label: Seq<u8>, i: int) -> bool {
    0 < i < label.len() - 1 && label[i] > 127
}

/// What the label rules say of one label.
///
/// A label is invalid if it is empty or longer than 63 bytes, if its first or
/// its last byte is no letter or digit, or if an ASCII byte between them is
/// neither a letter, a digit nor a hyphen. Of the other labels, those with a
/// non-ASCII byte between the first and the last await their ASCII form, and
/// the rest are valid.
pub open spec fn label_result(label: Seq<u8>) -> ValidationResult {
    if label.len() == 0 || label.len() > MAX_LABEL_LENGTH {
        ValidationResult::Invalid
    } else if !alphanumeric(label.first()) || !alphanumeric(label.last()) {
        ValidationResult::Invalid
    } else if exists|i: int| bad_interior_at(label, i) {
        ValidationResult::Invalid
    } else if exists|i: int| non_ascii_interior_at(label, i) {
        ValidationResult::RequiresIdnCheck
    } else {
        ValidationResult::Valid
    }
}

/// The labels of a domain: its fields between the dots.
pub open spec fn labels(domain: Seq<u8>) -> Seq<Seq<u8>> {
    split(domain, DOT)
}

/// The label at `i` of `all` has the verdict `verdict`.
pub open spec fn label_is(all: Seq<Seq<u8>>, i: int, verdict: ValidationResult) -> bool {
    0 <= i < all.len() && label_result(all[i]) == verdict
}

/// What the label rules say of a whole domain part.
///
/// A domain is invalid if it is empty or longer than 255 bytes, or if one of
/// its labels is invalid; a dot at either end, or two dots side by side, give
/// an empty label and so an invalid domain. Of the other domains, those with
/// a label that awaits its ASCII form await it too, and the rest are valid.
pub open spec fn domain_result(domain: Seq<u8>) -> ValidationResult {
    if domain.len() == 0 || domain.len() > MAX_DOMAIN_LENGTH {
        ValidationResult::Invalid
    } else if exists|i: int| label_is(labels(domain), i, ValidationResult::Invalid) {
        ValidationResult::Invalid
    } else if exists|i: int| label_is(labels(domain), i, ValidationResult::RequiresIdnCheck) {
        ValidationResult::RequiresIdnCheck
    } else {
        ValidationResult::Valid
    }
}

impl EmailValidator {
    /// The verdict of the label rules on one label.
    pub fn validate_domain_label(label: &[u8]) -> (r: ValidationResult)
        ensures
            r == label_result(label@),
    {
        let len: usize = label.len();
        if len == 0 || len > MAX_LABEL_LENGTH {
            return ValidationResult::Invalid;
        }
        let first: u8 = label[0];
        let last: u8 = label[len - 1];
        if !Self::is_alphanumeric_byte(first) || !Self::is_alphanumeric_byte(last) {
            return ValidationResult::Invalid;
        }
        if len == 1 {
            return ValidationResult::Valid;
        }
        let mut has_non_ascii: bool = false;
        let mut i: usize = 1;
        while i < len - 1
            invariant
                1 <= i <= len - 1,
                len == label@.len(),
                forall|k: int| 0 < k < i ==> !bad_interior_at(label@, k),
                has_non_ascii == (exists|k: int| 0 < k < i && non_ascii_interior_at(label@, k)),
            decreases len - i,
        {
            let byte: u8 = label[i];
            if byte > 127 {
                assert(non_ascii_interior_at(label@, i as int));
                has_non_ascii = true;
            } else if !Self::is_domain_char(byte) {
                assert(bad_interior_at(label@, i as int));
                return ValidationResult::Invalid;
            }
            i += 1;
        }
        if has_non_ascii {
            ValidationResult::RequiresIdnCheck
        } else {
            ValidationResult::Valid
        }
    }

    /// The verdict of the label rules on a whole domain part.
    pub fn validate_domain_part(bytes: &[u8]) -> (r: ValidationResult)
        ensures
            r == domain_result(bytes@),
    {
        let len: usize = bytes.len();
        if len == 0 || len > MAX_DOMAIN_LENGTH {
            return ValidationResult::Invalid;
        }
        if bytes[0] == DOT || bytes[len - 1] == DOT {
            proof {
                law_domain_dots(bytes@, 0);
            }
            return ValidationResult::Invalid;
        }
        let mut start: usize = 0;
        let mut requires_idn: bool = false;
        let ghost mut done: Seq<Seq<u8>> = Seq::empty();
        let mut i: usize = 0;
        assert(bytes@.skip(0) == bytes@);
        while i < len
            invariant
                start <= i <= len == bytes@.len(),
                labels(bytes@) == done + labels(bytes@.skip(start as int)),
                forall|k: int| start <= k < i ==> bytes@[k] != DOT,
                forall|j: int| 0 <= j < done.len() ==> label_result(#[trigger] done[j])
                    != ValidationResult::Invalid,
                requires_idn == (exists|j: int|
                    label_is(done, j, ValidationResult::RequiresIdnCheck)),
            decreases len - i,
        {
            if bytes[i] == DOT {
                let label: &[u8] = &bytes[start..i];
                let ghost rest = bytes@.skip(start as int);
                proof {
                    assert(rest.take(i - start) == bytes@.subrange(start as int, i as int));
                    assert(rest.skip(i - start + 1) == bytes@.skip(i + 1));
                    lemma_split_at_first(rest, DOT, i - start);
                    assert(labels(bytes@) == done.push(label@) + labels(bytes@.skip(i + 1)));
                }
                let verdict = Self::validate_domain_label(label);
                if verdict.is_invalid() {
                    assert(label_is(labels(bytes@), done.len() as int, ValidationResult::Invalid));
                    return ValidationResult::Invalid;
                }
                proof {
                    let next = done.push(label@);
                    if verdict == ValidationResult::RequiresIdnCheck {
                        assert(label_is(next, done.len() as int, verdict));
                    } else if requires_idn {
                        let j = choose|j: int|
                            label_is(done, j, ValidationResult::RequiresIdnCheck);
                        assert(label_is(next, j, ValidationResult::RequiresIdnCheck));
                    } else {
                        assert forall|j: int|
                            !label_is(next, j, ValidationResult::RequiresIdnCheck) by {
                            if 0 <= j < done.len() {
                                assert(!label_is(done, j, ValidationResult::RequiresIdnCheck));
                            }
                        }
                    }
                    done = next;
                }
                if verdict.requires_idn_check() {
                    requires_idn = true;
                }
                start = i + 1;
            }
            i += 1;
        }
        let label: &[u8] = &bytes[start..len];
        proof {
            assert(bytes@.skip(start as int) == label@);
            lemma_split_single(label@, DOT);
            assert(labels(bytes@) == done.push(label@));
        }
        let ghost all = labels(bytes@);
        let last = Self::validate_domain_label(label);
        proof {
            assert(label_is(all, done.len() as int, last));
            if requires_idn {
                let j = choose|j: int| label_is(done, j, ValidationResult::RequiresIdnCheck);
                assert(label_is(all, j, ValidationResult::RequiresIdnCheck));
            }
            if last != ValidationResult::Invalid {
                assert forall|j: int| !label_is(all, j, ValidationResult::Invalid) by {
                    if 0 <= j < done.len() {
                        assert(all[j] == done[j]);
                    }
                }
            }
            if last != ValidationResult::RequiresIdnCheck && !requires_idn {
                assert forall|j: int| !label_is(all, j, ValidationResult::RequiresIdnCheck) by {
                    if 0 <= j < done.len() {
                        assert(all[j] == done[j]);
                        assert(!label_is(done, j, ValidationResult::RequiresIdnCheck));
                    }
                }
            }
        }
        match last {
            ValidationResult::Invalid => ValidationResult::Invalid,
            ValidationResult::RequiresIdnCheck => ValidationResult::RequiresIdnCheck,
            ValidationResult::Valid => if requires_idn {
                ValidationResult::RequiresIdnCheck
            } else {
                ValidationResult::Valid
            },
        }
    }
}

} // verus!
