//! What can go wrong in the settings of the video layer.

use vstd::prelude::*;

verus! {

/// An error of the video layer.
#[derive(Debug)]
pub enum Error {
    /// The settings of a surface cannot be had. The text says why.
    SurfaceInvalid(String),
}

impl Error {
    /// The message of the error.
    pub open spec fn message(&self) -> Seq<char> {
        match self {
            Error::SurfaceInvalid(why) => why@,
        }
    }

    /// The error as text.
    pub fn description(&self) -> (text: &str)
        ensures
            text@ == self.message(),
    {
        match self {
            Error::SurfaceInvalid(why) => why.as_str(),
        }
    }
}

} // verus!
