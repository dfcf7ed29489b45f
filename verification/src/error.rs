//! The error taxonomy of the library.

use vstd::prelude::*;

verus! {

/// What can go wrong while loading and transforming a document. Reading and
/// parsing the source file report the first two; the third stands for a failed
/// insertion into a constructed value, which the library's own constructors
/// never produce.
#[derive(Clone, Copy, Debug, PartialEq, Eq, Structural)]
pub enum NaviError {
    IoError,
    ParseError,
    StructuralError,
}

impl NaviError {
    /// A short description of the error.
    pub fn message(&self) -> (r: &'static str)
        ensures
            *self == NaviError::IoError ==> r@ == "could not read the source file"@,
            *self == NaviError::ParseError ==> r@ == "the content is not well-formed JSON"@,
            *self == NaviError::StructuralError ==> r@ == "could not insert into a value"@,
    {
        match self {
            NaviError::IoError => "could not read the source file",
            NaviError::ParseError => "the content is not well-formed JSON",
            NaviError::StructuralError => "could not insert into a value",
        }
    }
}

} // verus!
