use vstd::prelude::*;

use crate::node::NodeView;
use crate::slot::Slots;

verus! {

/// What a compute node does with a user after a step.
#[derive(Debug)]
pub enum Route {
    /// The user stays in the slot it is kept under.
    Stay,
    /// The user is handed to the node listening on this address.
    MoveTo(String),
    /// The user is dropped from this node without being handed over.
    Drop,
}

/// The address of a node of known role.
pub open spec fn addr_of(node: NodeView) -> Seq<char> {
    match node {
        NodeView::User(addr) => addr,
        NodeView::Compute(addr) => addr,
        NodeView::Unknow => Seq::empty(),
    }
}

/// Decides where a user kept under `slot` goes once its position lies in
/// `current_slot`: it stays while the two agree; otherwise it is handed to
/// the node that the table assigns `slot` to, or dropped when the table has
/// no such slot.
pub fn route_user(node_slots: &Slots, slot: usize, current_slot: usize) -> (res: Route)
    requires
        current_slot != slot && slot < node_slots@.len() ==> !(node_slots@[slot as int] is Unknow),
    ensures
        current_slot == slot ==> res is Stay,
        current_slot != slot && slot < node_slots@.len() ==> (res matches Route::MoveTo(addr)
            && addr@ == addr_of(node_slots@[slot as int])),
        current_slot != slot && slot >= node_slots@.len() ==> res is Drop,
{
    if current_slot == slot {
        return Route::Stay;
    }
    match node_slots.get_node(slot) {
        Some(node) => {
            let addr = node.get_addr();
            match addr {
                Ok(a) => Route::MoveTo(String::from_str(a)),
                Err(_) => Route::Drop,
            }
        },
        None => Route::Drop,
    }
}

} // verus!
