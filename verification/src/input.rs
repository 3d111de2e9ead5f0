//! What a driver is given on its command line.

use vstd::prelude::*;
use vstd::string::*;

verus! {

/// A switch on the command line.
#[derive(Debug, PartialEq, Eq, Clone, Copy, Structural)]
pub enum Flag {
    Output,
    Input,
    Help,
}

/// One argument of the command line: a file's name, or a switch.
#[derive(Debug, PartialEq, Eq)]
pub enum Input {
    File(String),
    Option(Flag),
}

impl Input {
    /// The text an argument is shown as: a file's name as it is, and the
    /// same fixed words for every switch.
    pub open spec fn shown(&self) -> Seq<char> {
        match self {
            Input::File(name) => name@,
            Input::Option(_) => "Option variant"@,
        }
    }

    pub fn to_string(&self) -> (s: String)
        ensures
            s@ == self.shown(),
    {
        match self {
            Input::File(name) => name.clone(),
            Input::Option(_) => String::from_str("Option variant"),
        }
    }
}

} // verus!
