//! What can go wrong when dictionary artifacts are loaded or built.

use vstd::prelude::*;

verus! {

/// The error type of the `fst` crate, carried through unopened.
#[verifier::external_type_specification]
#[verifier::external_body]
pub struct ExFstError(fst::Error);

/// The decoding error type of the `bincode` crate, carried through unopened.
#[verifier::external_type_specification]
#[verifier::external_body]
pub struct ExDecodeError(bincode::error::DecodeError);

/// The encoding error type of the `bincode` crate, carried through unopened.
#[verifier::external_type_specification]
#[verifier::external_body]
pub struct ExEncodeError(bincode::error::EncodeError);

/// A failure to load or to build an artifact, or to analyse with it.
#[derive(Debug)]
pub enum ArtifactError {
    /// The bytes of an artifact do not decode.
    DecodeError(bincode::error::DecodeError),
    /// An artifact does not encode.
    EncodeError(bincode::error::EncodeError),
    /// The transducer image was refused, or could not be built.
    FstBuilderError(fst::Error),
    /// An artifact decodes to a value that its type does not have.
    InvalidVariant,
    /// The artifacts do not fit each other: a term names a context for
    /// which the cost matrix has no cell.
    ContextOutOfRange,
    /// An artifact or a line of a dictionary source is not of the expected form.
    Malformed,
}

} // verus!
