//! Validation of caller-supplied record shapes.

use crate::error::DtoValidationError;
use vstd::prelude::*;

verus! {

/// The UTF-8 byte length of a string value; every length bound below is a
/// bound on code units, not characters.
pub open spec fn byte_len(s: Seq<char>) -> nat {
    vstd::utf8::encode_utf8(s).len()
}

/// A caller-supplied record shape with length/shape bounds.
///
/// `valid` says whether every bound holds; `validate` checks it, reporting
/// the shape's fixed reason for the first violated bound.
pub trait DtoValidator {
    /// Every length/shape bound of this shape holds.
    spec fn valid(&self) -> bool;

    /// The reason reported when some bound is violated.
    spec fn validation_message(&self) -> Seq<char>;

    /// Checks the bounds: succeeds exactly on valid shapes.
    fn validate(&self) -> (r: Result<(), DtoValidationError>)
        ensures
            match r {
                Ok(()) => self.valid(),
                Err(e) => !self.valid() && e.0@ == self.validation_message(),
            },
    ;
}

} // verus!
