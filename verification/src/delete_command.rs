//! The delete command: its argument, and the document mutation it performs.
//!
//! The mutation itself is the aggregate's `remove_parameter`; fetching,
//! confirmation and the write happen outside.
use vstd::prelude::*;

verus! {

pub struct DeleteCommand {
    pub name: String,
}

impl DeleteCommand {
    pub fn new(name: String) -> (r: DeleteCommand)
        ensures
            r.name == name,
    {
        DeleteCommand { name }
    }
}

} // verus!
