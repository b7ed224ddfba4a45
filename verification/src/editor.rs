//! The line editor the interactive flows read from.
//!
//! Implementations live outside the library (a terminal line editor, a
//! scripted editor in tests); nothing is assumed of what they return.
use crate::error::Error;
use vstd::prelude::*;

verus! {

pub trait Editor {
    /// One line of operator input, or an error the editor reports.
    fn read_line(&mut self) -> Result<String, Error>;
}

} // verus!
