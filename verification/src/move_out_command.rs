//! The move-out command: its argument. The mutation it performs is the
//! aggregate's `move_parameter_out_of_group`.
use vstd::prelude::*;

verus! {

pub struct MoveOutCommand {
    pub parameter_name: String,
}

impl MoveOutCommand {
    pub fn new(parameter_name: String) -> (r: MoveOutCommand)
        ensures
            r.parameter_name == parameter_name,
    {
        MoveOutCommand { parameter_name }
    }
}

} // verus!
