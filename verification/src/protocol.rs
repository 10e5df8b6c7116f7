//! A codec of lines that is still without lines.

use vstd::prelude::*;

verus! {

/// A failure of the codec.
#[derive(Debug)]
pub struct Error;

impl Error {
    /// What kind of failure it is.
    pub fn description(&self) -> (r: &'static str)
        ensures
            r@ == "Something bad happened"@,
    {
        "Something bad happened"
    }

    /// What a user is told.
    pub fn text(&self) -> (r: String)
        ensures
            r@ == "Oh no, something bad went down"@,
    {
        "Oh no, something bad went down".to_owned()
    }
}

/// The codec.
pub struct Codec;

} // verus!
