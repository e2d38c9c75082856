//! Reconstitutes a host-language source file from the output of a C
//! preprocessor by keeping only the lines that the preprocessor's line
//! markers attribute to that file.

pub mod marker;
pub mod error;
pub mod scan;
pub mod laws;
pub mod profile;
pub mod path;
pub mod invoke;
