//! The errors of encoding and decoding.

use crate::text::{decimal, decimal_string, joined};
use vstd::prelude::*;

verus! {

/// Alias for a `Result` with the error type [`CsdError`].
pub type CsdResult<T> = Result<T, CsdError>;

#[non_exhaustive]
#[derive(Debug)]
pub enum CsdError {
    InvalidDisclosure(String),
    MissingHasher(String),
    DataTypeMismatch(String),
    ClaimCollisionError(String),
    DuplicateDigestError(String),
    InvalidArrayDisclosureObject,
    InvalidPath(String),
    DeserializationError(String),
    Unspecified(String),
    InvalidSaltSize,
    UnusedDisclosures(usize),
    AddBatch(String),
    WitnessBatch(String),
}

impl CsdError {
    /// The sentence that describes the error.
    pub open spec fn spec_message(self) -> Seq<char> {
        match self {
            CsdError::InvalidDisclosure(s) => "invalid input: "@ + s@,
            CsdError::MissingHasher(s) => "no hasher can be specified for the hashing algorithm "@
                + s@,
            CsdError::DataTypeMismatch(s) => "data type is not expected: "@ + s@,
            CsdError::ClaimCollisionError(s) => "claim "@ + s@ + " of disclosure already exists"@,
            CsdError::DuplicateDigestError(s) => "digest "@ + s@ + " appears multiple times"@,
            CsdError::InvalidArrayDisclosureObject =>
                "array disclosure object contains keys other than `...`"@,
            CsdError::InvalidPath(s) => "invalid path: "@ + s@,
            CsdError::DeserializationError(_) => "invalid input"@,
            CsdError::Unspecified(s) => s@,
            CsdError::InvalidSaltSize => "salt size must be greater than or equal to 16"@,
            CsdError::UnusedDisclosures(n) => "the validation ended with "@ + decimal(n as nat)
                + " unused disclosure(s)"@,
            CsdError::AddBatch(s) => "Error in adding batch of elements in accumulator ["@ + s@
                + "]"@,
            CsdError::WitnessBatch(s) => "Error in generating batch of witnesses ["@ + s@ + "]"@,
        }
    }

    /// The name of the variant.
    pub open spec fn spec_name(self) -> Seq<char> {
        match self {
            CsdError::InvalidDisclosure(_) => "InvalidDisclosure"@,
            CsdError::MissingHasher(_) => "MissingHasher"@,
            CsdError::DataTypeMismatch(_) => "DataTypeMismatch"@,
            CsdError::ClaimCollisionError(_) => "ClaimCollisionError"@,
            CsdError::DuplicateDigestError(_) => "DuplicateDigestError"@,
            CsdError::InvalidArrayDisclosureObject => "InvalidArrayDisclosureObject"@,
            CsdError::InvalidPath(_) => "InvalidPath"@,
            CsdError::DeserializationError(_) => "DeserializationError"@,
            CsdError::Unspecified(_) => "Unspecified"@,
            CsdError::InvalidSaltSize => "InvalidSaltSize"@,
            CsdError::UnusedDisclosures(_) => "UnusedDisclosures"@,
            CsdError::AddBatch(_) => "AddBatch"@,
            CsdError::WitnessBatch(_) => "WitnessBatch"@,
        }
    }

    /// The sentence that describes the error, as a string.
    pub fn message(&self) -> (r: String)
        ensures
            r@ == self.spec_message(),
    {
        match self {
            CsdError::InvalidDisclosure(s) => joined("invalid input: ", s.as_str()),
            CsdError::MissingHasher(s) => joined(
                "no hasher can be specified for the hashing algorithm ",
                s.as_str(),
            ),
            CsdError::DataTypeMismatch(s) => joined("data type is not expected: ", s.as_str()),
            CsdError::ClaimCollisionError(s) => {
                let head = joined("claim ", s.as_str());
                joined(head.as_str(), " of disclosure already exists")
            },
            CsdError::DuplicateDigestError(s) => {
                let head = joined("digest ", s.as_str());
                joined(head.as_str(), " appears multiple times")
            },
            CsdError::InvalidArrayDisclosureObject =>
                "array disclosure object contains keys other than `...`".to_owned(),
            CsdError::InvalidPath(s) => joined("invalid path: ", s.as_str()),
            CsdError::DeserializationError(_) => "invalid input".to_owned(),
            CsdError::Unspecified(s) => s.clone(),
            CsdError::InvalidSaltSize => "salt size must be greater than or equal to 16".to_owned(),
            CsdError::UnusedDisclosures(n) => {
                let count = decimal_string(*n as u64);
                let head = joined("the validation ended with ", count.as_str());
                joined(head.as_str(), " unused disclosure(s)")
            },
            CsdError::AddBatch(s) => {
                let head = joined("Error in adding batch of elements in accumulator [", s.as_str());
                joined(head.as_str(), "]")
            },
            CsdError::WitnessBatch(s) => {
                let head = joined("Error in generating batch of witnesses [", s.as_str());
                joined(head.as_str(), "]")
            },
        }
    }

    /// The name of the variant, as a string.
    pub fn name(&self) -> (r: &'static str)
        ensures
            r@ == self.spec_name(),
    {
        match self {
            CsdError::InvalidDisclosure(_) => "InvalidDisclosure",
            CsdError::MissingHasher(_) => "MissingHasher",
            CsdError::DataTypeMismatch(_) => "DataTypeMismatch",
            CsdError::ClaimCollisionError(_) => "ClaimCollisionError",
            CsdError::DuplicateDigestError(_) => "DuplicateDigestError",
            CsdError::InvalidArrayDisclosureObject => "InvalidArrayDisclosureObject",
            CsdError::InvalidPath(_) => "InvalidPath",
            CsdError::DeserializationError(_) => "DeserializationError",
            CsdError::Unspecified(_) => "Unspecified",
            CsdError::InvalidSaltSize => "InvalidSaltSize",
            CsdError::UnusedDisclosures(_) => "UnusedDisclosures",
            CsdError::AddBatch(_) => "AddBatch",
            CsdError::WitnessBatch(_) => "WitnessBatch",
        }
    }
}

} // verus!
