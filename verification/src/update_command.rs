//! The update command: its argument. The lookup it relies on is the
//! aggregate's `find_parameter_source`; the rebuilt parameter goes back
//! through `upsert_parameter`, and multi-project rollout reuses the add
//! flow's propagation.
use vstd::prelude::*;

verus! {

pub struct UpdateCommand {
    pub name: String,
}

impl UpdateCommand {
    pub fn new(name: String) -> (r: UpdateCommand)
        ensures
            r.name == name,
    {
        UpdateCommand { name }
    }
}

} // verus!
