//! Accumulator-based selective disclosure of signed claims.
//!
//! An issuer turns a flat object of claims into an envelope: the claims that
//! are not concealed are committed into a positive accumulator, and each gets
//! a membership witness. A verifier reads the envelope and checks every claim
//! against the accumulator value that it carries.
//!
//! - [`json`]: a JSON value as a tagged variant.
//! - [`accumulator`]: scalars, keys, accumulator values and witnesses over the
//!   BN254 pairing, and their transport encoding.
//! - [`state`]: the registry of an accumulator's members.
//! - [`csd`]: the encoder, the decoder, the disclosure record, the
//!   presentation string and the errors.
//! - [`samples`]: numbered sample claims.
//! - [`text`]: decimal numerals and other helpers on strings.

pub mod accumulator;
pub mod csd;
pub mod json;
pub mod samples;
pub mod state;
pub mod text;
