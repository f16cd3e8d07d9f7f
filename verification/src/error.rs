//! Error taxonomy for the image engine.
//!
//! Every failure that can arise while writing, opening or traversing an
//! image is reported through one of these variants; nothing panics on
//! malformed input.

use vstd::prelude::*;

verus! {

/// The error kinds surfaced by the library.
///
/// `IO` covers byte-store failures, including an unexpected end of the
/// stream during an exact read. `Format` covers structural problems in the
/// image bytes (bad magic, unknown discriminants, malformed strings).
/// `Bounds` covers offsets, sizes and resource limits that are out of
/// range. `Crypto` covers key-material problems. `InvalidOperation` covers
/// requests that make no sense for the record they address.
#[derive(Copy, Clone, Debug, PartialEq, Eq)]
pub enum Error {
    IO(&'static str),
    Crypto(&'static str),
    Compression(&'static str),
    Format(&'static str),
    Bounds(&'static str),
    InvalidOperation(&'static str),
}

} // verus!
