//! The errors of this library.

use vstd::prelude::*;

verus! {

/// What went wrong.
#[derive(Debug)]
pub enum ArrowError {
    /// The operation is not supported yet; the text says which.
    NotYetImplemented(String),
}

impl ArrowError {
    /// The text of the error, as it is shown.
    pub fn message(&self) -> (text: String)
        ensures
            self matches ArrowError::NotYetImplemented(detail) ==> text@ == "Not yet implemented: "@
                + detail@,
    {
        match self {
            ArrowError::NotYetImplemented(detail) => {
                let mut text = "Not yet implemented: ".to_string();
                text.append(detail.as_str());
                text
            },
        }
    }
}

} // verus!
