//! The move-to command: its arguments. Moving is a remove from the current
//! container followed by an insert into the chosen group — the aggregate's
//! `remove_parameter` with `insert_param_into_group_at` or `insert_group` —
//! never a copy.
use vstd::prelude::*;

verus! {

pub struct MoveToCommand {
    pub parameter_name: String,
    pub group_name: Option<String>,
}

impl MoveToCommand {
    pub fn new(parameter_name: String, group_name: Option<String>) -> (r: MoveToCommand)
        ensures
            r.parameter_name == parameter_name,
            r.group_name == group_name,
    {
        MoveToCommand { parameter_name, group_name }
    }
}

} // verus!
