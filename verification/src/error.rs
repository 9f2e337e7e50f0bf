//! Errors.

use vstd::prelude::*;

verus! {

/// Why an operation on a room's events failed.
#[derive(Debug, PartialEq, Eq)]
pub enum Error {
    /// Something that was asked for does not exist.
    NotFound(String),
    /// The database does not hold what it should.
    Database(String),
}

/// What an [`Error`] says.
pub enum ErrorView {
    NotFound(Seq<char>),
    Database(Seq<char>),
}

impl View for Error {
    type V = ErrorView;

    open spec fn view(&self) -> ErrorView {
        match self {
            Error::NotFound(message) => ErrorView::NotFound(message@),
            Error::Database(message) => ErrorView::Database(message@),
        }
    }
}

} // verus!
