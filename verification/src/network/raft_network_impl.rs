use vstd::prelude::*;

use crate::node::{Node, NodeView};

verus! {

/// The factory of raft connections.
#[derive(Debug, Clone, Copy)]
pub struct Network {}

/// Why a raft message could not be sent.
#[derive(Debug)]
pub enum Error {
    /// The target's role, and so its address, is not known.
    UnknowNode,
}

/// Consecutive failed appends after which the target is dropped from the
/// cluster.
pub const MAX_RETRY: u8 = 5;

/// A connection to one member: its node and how many appends to it have
/// failed in a row.
#[derive(Debug)]
pub struct NetworkConnection {
    retry_times: u8,
    target_node: Node,
}

/// The count of failed appends in a row after an append that succeeded
/// (`ok`) or failed.
pub open spec fn next_retry(retry_times: u8, ok: bool) -> u8 {
    if ok {
        0
    } else {
        (retry_times + 1) as u8
    }
}

/// Whether an append outcome leaves the target to be dropped.
pub open spec fn drops(retry_times: u8, ok: bool) -> bool {
    !ok && next_retry(retry_times, ok) > MAX_RETRY
}

/// The URL of an endpoint of a node listening on `addr`.
pub open spec fn endpoint_url(addr: Seq<char>, uri: Seq<char>) -> Seq<char> {
    "http://"@ + addr + "/"@ + uri
}

impl Network {
    /// A connection to `node`, with no failure yet.
    pub fn new_client(&self, _target: u64, node: &Node) -> (res: NetworkConnection)
        ensures
            res.retry_times() == 0,
            res.target_node()@ == node@,
    {
        NetworkConnection { retry_times: 0, target_node: node.clone() }
    }

    /// Where a message for endpoint `uri` of `node` is sent; a node of
    /// unknown role has no address.
    pub fn rpc_url(node: &Node, uri: &str) -> (res: Result<String, Error>)
        ensures
            match node@ {
                NodeView::User(addr) | NodeView::Compute(addr) => res is Ok && res->Ok_0@
                    == endpoint_url(addr, uri@),
                NodeView::Unknow => res is Err,
            },
    {
        let addr = match node {
            Node::User(addr) | Node::Compute(addr) => addr,
            Node::Unknow => return Err(Error::UnknowNode),
        };
        proof {
            reveal_strlit("http://");
            reveal_strlit("/");
        }
        let url = String::from_str("http://").concat(addr.as_str()).concat("/").concat(uri);
        Ok(url)
    }
}

impl NetworkConnection {
    /// Failed appends in a row.
    pub closed spec fn retry_times(&self) -> u8 {
        self.retry_times
    }

    /// The member this connection reaches.
    pub closed spec fn target_node(&self) -> Node {
        self.target_node
    }

    /// Failed appends in a row.
    pub fn failures(&self) -> (res: u8)
        ensures
            res == self.retry_times(),
    {
        self.retry_times
    }

    /// The member this connection reaches.
    pub fn target(&self) -> (res: &Node)
        ensures
            *res == self.target_node(),
    {
        &self.target_node
    }

    /// Records the outcome of an append: a success resets the count of
    /// failures, a failure adds one. Answers whether the target has now
    /// failed more than [`MAX_RETRY`] times in a row and should be dropped
    /// from the cluster.
    pub fn record_append(&mut self, ok: bool) -> (remove: bool)
        requires
            ok || old(self).retry_times() < u8::MAX,
        ensures
            final(self).target_node() == old(self).target_node(),
            final(self).retry_times() == next_retry(old(self).retry_times(), ok),
            remove == drops(old(self).retry_times(), ok),
    {
        if ok {
            self.retry_times = 0;
            false
        } else {
            self.retry_times += 1;
            self.retry_times > MAX_RETRY
        }
    }
}

/// The members of a cluster without `target`, in the order given.
pub fn members_without(members: &Vec<u64>, target: u64) -> (res: Vec<u64>)
    ensures
        res@ == members@.filter(|id: u64| id != target),
{
    let mut res: Vec<u64> = Vec::new();
    let mut i: usize = 0;
    while i < members.len()
        invariant
            i <= members@.len(),
            res@ == members@.take(i as int).filter(|id: u64| id != target),
        decreases members@.len() - i,
    {
        let id = members[i];
        proof {
            reveal_with_fuel(Seq::<u64>::filter, 1);
        }
        assert(members@.take(i + 1).drop_last() =~= members@.take(i as int));
        if id != target {
            res.push(id);
        }
        i += 1;
    }
    assert(members@.take(members@.len() as int) =~= members@);
    res
}

/// A successful append resets the count and never drops the target.
pub proof fn law_success_resets(retry_times: u8)
    ensures
        next_retry(retry_times, true) == 0,
        !drops(retry_times, true),
{
}

/// A failed append adds one to the count of failures in a row, and the
/// target is dropped exactly when that count passes the limit.
pub proof fn law_failure_counts(retry_times: u8)
    requires
        retry_times < u8::MAX,
    ensures
        next_retry(retry_times, false) == retry_times + 1,
        drops(retry_times, false) <==> retry_times + 1 > MAX_RETRY,
{
}

/// From a fresh or reset connection, the first five failures in a row keep
/// the target and the sixth drops it.
pub proof fn law_sixth_failure_drops()
    ensures
        !drops(0, false),
        !drops(next_retry(0, false), false),
        !drops(next_retry(next_retry(0, false), false), false),
        !drops(next_retry(next_retry(next_retry(0, false), false), false), false),
        !drops(next_retry(next_retry(next_retry(next_retry(0, false), false), false), false), false),
        drops(
            next_retry(next_retry(next_retry(next_retry(next_retry(0, false), false), false), false), false),
            false,
        ),
{
}

/// Dropping a member removes it and only it from the member list.
pub proof fn law_members_without(members: Seq<u64>, target: u64)
    ensures
        !members.filter(|id: u64| id != target).contains(target),
        forall|m: u64| members.contains(m) && m != target ==> members.filter(|id: u64| id != target).contains(m),
{
    let pred = |id: u64| id != target;
    members.filter_lemma(pred);
    assert forall|m: u64| members.contains(m) && m != target implies members.filter(pred).contains(m) by {
        let i = choose|i: int| 0 <= i < members.len() && members[i] == m;
        assert(pred(members[i]));
    }
    if members.filter(pred).contains(target) {
        let i = choose|i: int| 0 <= i < members.filter(pred).len() && members.filter(pred)[i] == target;
        assert(pred(members.filter(pred)[i]));
    }
}

} // verus!
