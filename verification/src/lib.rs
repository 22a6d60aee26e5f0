//! Extraction of embedded "FastVar" feature-flag definitions from a compiled
//! executable image, together with a byte-stream codec, an on-disk cache
//! format keyed by build version, and a decoder for the dynamic-settings
//! text payload that carries the same flags as naming-convention keys.

use vstd::prelude::*;

pub mod binary;
pub mod cache;
pub mod dump;
pub mod dynamic;
pub mod fastvar;
pub mod registry;
pub mod scanner;
pub mod stream;

verus! {

/// The error kinds an extraction can surface.
///
/// `Format`: image headers or a varint were unparsable.
/// `SectionNotFound`: a required image section is absent.
/// `OutOfBounds`: a structural stream read ran past the buffer end.
/// `Encoding`: a decoded string was not valid UTF-8.
/// `LengthOverflow`: a value to be written does not fit its length prefix.
#[derive(Clone, Copy, Debug, PartialEq, Eq, Structural)]
pub enum DumpError {
    Format,
    SectionNotFound,
    OutOfBounds,
    Encoding,
    LengthOverflow,
}

} // verus!
