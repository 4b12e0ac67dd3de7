//! Errors of the library.

use vstd::prelude::*;
use vstd::string::StringExecFns;

verus! {

broadcast use vstd::string::group_string_axioms;

/// What can go wrong while reading a post or its metadata.
#[derive(Clone, Debug, PartialEq, Eq)]
pub enum AlogError {
    /// The path has no file name that is valid text.
    InvalidFilename,
    /// The file name does not start with a supported date.
    NoFilenameDate,
    /// A frontmatter field meant to hold strings holds something else; the text
    /// is the debug form of the value found.
    ExpectedStrings(String),
}

/// The text of each error.
pub open spec fn error_text(e: AlogError) -> Seq<char> {
    match e {
        AlogError::InvalidFilename => "Invalid filename"@,
        AlogError::NoFilenameDate => "Filename does not contain a supported date"@,
        AlogError::ExpectedStrings(found) => "expected a string or list of strings, got "@
            + found@,
    }
}

impl AlogError {
    /// The error's message.
    pub fn message(&self) -> (r: String)
        ensures
            r@ == error_text(*self),
    {
        match self {
            AlogError::InvalidFilename => "Invalid filename".to_string(),
            AlogError::NoFilenameDate => "Filename does not contain a supported date".to_string(),
            AlogError::ExpectedStrings(found) => {
                let mut r = "expected a string or list of strings, got ".to_string();
                r.append(found.as_str());
                r
            },
        }
    }
}

} // verus!
