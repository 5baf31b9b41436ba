//! The credential envelope: errors, presentation strings, encoding and
//! decoding.

pub mod csd_decoder;
pub mod csd_disclosure;
pub mod csd_encoder;
pub mod csd_error;
pub mod csd_jwt;
