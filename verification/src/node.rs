use vstd::prelude::*;

verus! {

/// A member of the cluster: a user node or a compute node, each known by the
/// address it listens on, or a node whose role is not known yet.
#[derive(Debug, Hash, PartialEq, Eq)]
pub enum Node {
    User(String),
    Compute(String),
    Unknow,
}

/// Mathematical model of a [`Node`]: the role and the characters of its address.
pub enum NodeView {
    User(Seq<char>),
    Compute(Seq<char>),
    Unknow,
}

impl View for Node {
    type V = NodeView;

    open spec fn view(&self) -> NodeView {
        match self {
            Node::User(addr) => NodeView::User(addr@),
            Node::Compute(addr) => NodeView::Compute(addr@),
            Node::Unknow => NodeView::Unknow,
        }
    }
}

impl Clone for Node {
    fn clone(&self) -> (res: Self)
        ensures
            res == *self,
    {
        match self {
            Node::User(addr) => Node::User(addr.clone()),
            Node::Compute(addr) => Node::Compute(addr.clone()),
            Node::Unknow => Node::Unknow,
        }
    }
}

impl Default for Node {
    fn default() -> (res: Self)
        ensures
            res == Node::Unknow,
    {
        Node::Unknow
    }
}

impl Node {
    /// The address of a user or compute node. A node of unknown role has none.
    pub fn get_addr(&self) -> (res: Result<&str, crate::socket_id::error::Error>)
        requires
            !(self is Unknow),
        ensures
            res is Ok,
            match self {
                Node::User(addr) => res->Ok_0@ == addr@,
                Node::Compute(addr) => res->Ok_0@ == addr@,
                Node::Unknow => false,
            },
    {
        match self {
            Node::User(addr) => Ok(addr.as_str()),
            Node::Compute(addr) => Ok(addr.as_str()),
            Node::Unknow => unreached(),
        }
    }

    /// Whether this is a user node.
    pub fn is_user_node(&self) -> (res: bool)
        ensures
            res == (self is User),
    {
        match self {
            Node::User(_) => true,
            _ => false,
        }
    }

    /// Whether this is a compute node listening on `addr`.
    pub fn is_compute_at(&self, addr: &String) -> (res: bool)
        ensures
            res == (self@ == NodeView::Compute(addr@)),
    {
        match self {
            Node::Compute(a) => a.eq(addr),
            _ => false,
        }
    }

    /// Whether two nodes have the same role and the same address.
    pub fn same_as(&self, other: &Node) -> (res: bool)
        ensures
            res == (self@ == other@),
    {
        match (self, other) {
            (Node::User(a), Node::User(b)) => a.eq(b),
            (Node::Compute(a), Node::Compute(b)) => a.eq(b),
            (Node::Unknow, Node::Unknow) => true,
            _ => false,
        }
    }
}

} // verus!
