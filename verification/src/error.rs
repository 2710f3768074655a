//! The one error type of the library.

use vstd::prelude::*;
use vstd::string::*;

verus! {

/// Why a combine operation was given up. Nothing is retried: the first
/// failure is the result.
#[derive(Debug, PartialEq, Eq)]
pub enum Error {
    /// No grid was supplied.
    EmptyInput,
    /// The common rectangle of the grids is empty or inverted.
    NoIntersection,
    /// The grids do not all carry the same projection identifier.
    ProjectionMismatch,
    /// Two neighbouring grids differ in pixel size or rotation.
    SpacingMismatch,
    /// Two neighbouring grids have the same spacing but sample different
    /// pixel lattices.
    OffsetMisaligned,
    /// A transform could not be inverted to a finite pixel position.
    SingularTransform,
    /// A failure of the raster collaborator, with its description.
    ExternalIO(String),
}

impl Error {
    /// Wraps the description of a failure met outside the library.
    pub fn from_string(msg: String) -> (r: Error)
        ensures
            r == Error::ExternalIO(msg),
    {
        Error::ExternalIO(msg)
    }

    /// The text of `message`.
    pub open spec fn text(self) -> Seq<char> {
        match self {
            Error::EmptyInput => "No bands provided"@,
            Error::NoIntersection => "No valid intersection between bands"@,
            Error::ProjectionMismatch => "Different projections"@,
            Error::SpacingMismatch => "non-equal spacing"@,
            Error::OffsetMisaligned => "grids offset"@,
            Error::SingularTransform => "transform cannot be inverted"@,
            Error::ExternalIO(detail) => detail@,
        }
    }

    /// A line for the user that says what went wrong.
    pub fn message(&self) -> (r: String)
        ensures
            r@ == self.text(),
    {
        match self {
            Error::EmptyInput => String::from_str("No bands provided"),
            Error::NoIntersection => String::from_str("No valid intersection between bands"),
            Error::ProjectionMismatch => String::from_str("Different projections"),
            Error::SpacingMismatch => String::from_str("non-equal spacing"),
            Error::OffsetMisaligned => String::from_str("grids offset"),
            Error::SingularTransform => String::from_str("transform cannot be inverted"),
            Error::ExternalIO(detail) => detail.clone(),
        }
    }
}

} // verus!
