//! What can go wrong while a window is set up.

use vstd::prelude::*;

verus! {

/// An error of the graphics layer.
#[derive(Debug)]
pub enum Error {
    /// The OpenGL implementation lacks a feature that the renderer cannot do
    /// without. The text names the feature.
    Requirement(String),
}

impl Error {
    /// The message of the error.
    pub open spec fn message(&self) -> Seq<char> {
        match self {
            Error::Requirement(what) => what@,
        }
    }

    /// The error as text.
    pub fn description(&self) -> (text: &str)
        ensures
            text@ == self.message(),
    {
        match self {
            Error::Requirement(what) => what.as_str(),
        }
    }
}

} // verus!
