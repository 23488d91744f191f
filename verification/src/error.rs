//! Failure kinds of a print job. Every kind aborts the enclosing job; none
//! is retried and no partial document is ever returned.

use vstd::prelude::*;

verus! {

/// Why a print job failed.
#[derive(Clone, Copy, PartialEq, Eq, Structural, Debug)]
pub enum PrintError {
    /// A network retrieval failed or returned a non-success result.
    NetworkFailure,
    /// Image bytes could not be decoded into a card-sized raster.
    DecodeFailure,
    /// An internal invariant was violated, e.g. a resolved image was
    /// missing from the job's store.
    CompositionFailure,
    /// Encoding, compression or output failed while building the document.
    AssemblyFailure,
}

impl PrintError {
    /// A short diagnostic label for the failure kind.
    pub fn describe(&self) -> (r: &'static str)
        ensures
            *self is NetworkFailure ==> r@ == "network retrieval failed"@,
            *self is DecodeFailure ==> r@ == "could not decode image"@,
            *self is CompositionFailure ==> r@ == "image missing while composing page"@,
            *self is AssemblyFailure ==> r@ == "could not assemble document"@,
    {
        match self {
            PrintError::NetworkFailure => "network retrieval failed",
            PrintError::DecodeFailure => "could not decode image",
            PrintError::CompositionFailure => "image missing while composing page",
            PrintError::AssemblyFailure => "could not assemble document",
        }
    }
}

} // verus!
