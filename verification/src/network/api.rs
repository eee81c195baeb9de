use vstd::prelude::*;

use crate::store::state_machine::Request;

verus! {

/// A client's request to assign slots to the compute node listening on
/// `node_addr`.
#[derive(Debug)]
pub struct MoveSlots {
    pub node_addr: String,
    pub slots: Vec<usize>,
}

impl MoveSlots {
    /// The command that the request is replicated as.
    pub fn into_request<W>(self) -> (res: Request<W>)
        ensures
            res matches Request::MoveSlots { node_addr, slots } && node_addr == self.node_addr
                && slots == self.slots,
    {
        let MoveSlots { node_addr, slots } = self;
        Request::MoveSlots { node_addr, slots }
    }
}

} // verus!
