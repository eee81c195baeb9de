use vstd::prelude::*;

use crate::node::{Node, NodeView};
use crate::slot::{moved, Slots};
use crate::store::log::LogId;

verus! {

/// A command replicated through the raft log.
#[derive(Debug)]
pub enum Request<W> {
    /// Assign the given slots to the compute node that listens on
    /// `node_addr`.
    MoveSlots { node_addr: String, slots: Vec<usize> },
    /// Replace the snapshot of the world (of type `W`).
    UpdateWorldSnapshot { snapshot: W },
}

/// The answer to an applied entry.
#[derive(Debug)]
pub struct Response {
    pub value: Option<String>,
}

/// A membership config as the state machine reads it: the member nodes,
/// each with its id, and the config itself (of type `M`), carried along.
#[derive(Debug)]
pub struct Membership<M> {
    pub config: M,
    pub nodes: Vec<(u64, Node)>,
}

/// The last membership applied, with the id of the entry that carried it.
#[derive(Debug)]
pub struct StoredMembership<M> {
    pub log_id: Option<LogId>,
    pub membership: Membership<M>,
}

/// What a log entry carries.
#[derive(Debug)]
pub enum EntryPayload<M, W> {
    Blank,
    Normal(Request<W>),
    Membership(Membership<M>),
}

/// A log entry: its id and what it carries.
#[derive(Debug)]
pub struct Entry<M, W> {
    pub log_id: LogId,
    pub payload: EntryPayload<M, W>,
}

/// The state that the committed entries drive: the last entry applied, the
/// last membership, the slot table and the world snapshot (of type `W`).
#[derive(Debug)]
pub struct StateMachine<M, W> {
    pub last_applied_log: Option<LogId>,
    pub last_membership: StoredMembership<M>,
    pub slots: Slots,
    pub world_state_snapshot: W,
}

/// Model of the member list of a membership.
pub open spec fn members_view(nodes: Seq<(u64, Node)>) -> Seq<(u64, NodeView)> {
    nodes.map_values(|m: (u64, Node)| (m.0, m.1@))
}

/// Model of a [`StateMachine`].
pub struct MachineView<M, W> {
    pub last_applied_log: Option<LogId>,
    pub membership_log_id: Option<LogId>,
    pub config: M,
    pub members: Seq<(u64, NodeView)>,
    pub slots: Seq<NodeView>,
    pub world: W,
}

/// Model of what an entry carries.
pub enum PayloadView<M, W> {
    Blank,
    MoveSlots(Seq<char>, Seq<usize>),
    UpdateWorldSnapshot(W),
    Membership(M, Seq<(u64, NodeView)>),
}

/// Model of an [`Entry`].
pub struct EntryView<M, W> {
    pub log_id: LogId,
    pub payload: PayloadView<M, W>,
}

impl<M, W> View for StateMachine<M, W> {
    type V = MachineView<M, W>;

    open spec fn view(&self) -> MachineView<M, W> {
        MachineView {
            last_applied_log: self.last_applied_log,
            membership_log_id: self.last_membership.log_id,
            config: self.last_membership.membership.config,
            members: members_view(self.last_membership.membership.nodes@),
            slots: self.slots@,
            world: self.world_state_snapshot,
        }
    }
}

impl<M, W> View for Entry<M, W> {
    type V = EntryView<M, W>;

    open spec fn view(&self) -> EntryView<M, W> {
        EntryView {
            log_id: self.log_id,
            payload: match self.payload {
                EntryPayload::Blank => PayloadView::Blank,
                EntryPayload::Normal(Request::MoveSlots { node_addr, slots }) => PayloadView::MoveSlots(
                    node_addr@,
                    slots@,
                ),
                EntryPayload::Normal(Request::UpdateWorldSnapshot { snapshot }) => PayloadView::UpdateWorldSnapshot(snapshot),
                EntryPayload::Membership(m) => PayloadView::Membership(m.config, members_view(m.nodes@)),
            },
        }
    }
}

/// The text of a string as its `Debug` formatting writes it: quoted, with
/// special characters escaped.
pub uninterp spec fn debug_text(s: Seq<char>) -> Seq<char>;

/// Formats a string with `Debug`, through `format!` of std: the result is
/// named [`debug_text`] of the string's characters; nothing more is stated
/// of it.
#[verifier::external_body]
fn debug_string(s: &String) -> (res: String)
    ensures
        res@ == debug_text(s@),
{
    format!("{:?}", s)
}

/// Whether a member of the cluster is the compute node listening on `addr`.
pub open spec fn has_compute_member(members: Seq<(u64, NodeView)>, addr: Seq<char>) -> bool {
    exists|i: int| 0 <= i < members.len() && #[trigger] members[i].1 == NodeView::Compute(addr)
}

/// The answer to a slot move whose target is not a member.
pub open spec fn no_such_node(addr: Seq<char>) -> Seq<char> {
    "no such compute node: "@ + debug_text(addr)
}

/// Whether applying `e` to `s` is defined: a slot move to a member moves
/// slots of the table only, and no snapshot update is applied.
pub open spec fn applicable<M, W>(s: MachineView<M, W>, e: EntryView<M, W>) -> bool {
    match e.payload {
        PayloadView::MoveSlots(addr, slots) => has_compute_member(s.members, addr) ==> forall|
            k: int,
        |
            0 <= k < slots.len() ==> #[trigger] slots[k] < s.slots.len(),
        PayloadView::UpdateWorldSnapshot(_) => false,
        _ => true,
    }
}

/// The state after applying `e` to `s`, and the answer.
pub open spec fn applied<M, W>(s: MachineView<M, W>, e: EntryView<M, W>) -> (MachineView<M, W>, Option<Seq<char>>) {
    let s1 = MachineView { last_applied_log: Some(e.log_id), ..s };
    match e.payload {
        PayloadView::Blank => (s1, None),
        PayloadView::MoveSlots(addr, slots) => if has_compute_member(s.members, addr) {
            (
                MachineView { slots: moved(s.slots, NodeView::Compute(addr), slots), ..s1 },
                Some("ok"@),
            )
        } else {
            (s1, Some(no_such_node(addr)))
        },
        PayloadView::UpdateWorldSnapshot(_) => (s1, None),
        PayloadView::Membership(config, members) => (
            MachineView {
                membership_log_id: Some(e.log_id),
                config,
                members,
                ..s1
            },
            None,
        ),
    }
}

/// Applying the entries `es` one after the other, from `s`: the final
/// state and the answers, or `None` when some entry is not applicable.
pub open spec fn applied_all<M, W>(s: MachineView<M, W>, es: Seq<EntryView<M, W>>) -> Option<
    (MachineView<M, W>, Seq<Option<Seq<char>>>),
>
    decreases es.len(),
{
    if es.len() == 0 {
        Some((s, Seq::empty()))
    } else {
        match applied_all(s, es.drop_last()) {
            None => None,
            Some((s1, rs)) => if applicable(s1, es.last()) {
                let (s2, r) = applied(s1, es.last());
                Some((s2, rs.push(r)))
            } else {
                None
            },
        }
    }
}

/// Model of a list of answers.
pub open spec fn responses_view(rs: Seq<Response>) -> Seq<Option<Seq<char>>> {
    rs.map_values(|r: Response| match r.value {
        Some(v) => Some(v@),
        None => None,
    })
}

impl<M, W> StateMachine<M, W> {
    /// Applies one entry.
    pub fn apply(&mut self, entry: Entry<M, W>) -> (res: Response)
        requires
            applicable(old(self)@, entry@),
        ensures
            (final(self)@, match res.value {
                Some(v) => Some(v@),
                None => None,
            }) == applied(old(self)@, entry@),
    {
        let ghost e = entry@;
        let ghost before = self@;
        self.last_applied_log = Some(entry.log_id);
        match entry.payload {
            EntryPayload::Blank => Response { value: None },
            EntryPayload::Normal(Request::MoveSlots { node_addr, slots }) => {
                let mut i: usize = 0;
                let mut found: Option<Node> = None;
                while i < self.last_membership.membership.nodes.len()
                    invariant_except_break
                        found is None,
                        i <= self.last_membership.membership.nodes@.len(),
                        forall|k: int|
                            0 <= k < i ==> #[trigger] members_view(
                                self.last_membership.membership.nodes@,
                            )[k].1 != NodeView::Compute(node_addr@),
                    ensures
                        found is Some ==> found->Some_0@ == NodeView::Compute(node_addr@) && i
                            < self.last_membership.membership.nodes@.len() && members_view(
                            self.last_membership.membership.nodes@,
                        )[i as int].1 == NodeView::Compute(node_addr@),
                        found is None ==> forall|k: int|
                            0 <= k < self.last_membership.membership.nodes@.len()
                                ==> #[trigger] members_view(
                                self.last_membership.membership.nodes@,
                            )[k].1 != NodeView::Compute(node_addr@),
                    decreases self.last_membership.membership.nodes@.len() - i,
                {
                    if self.last_membership.membership.nodes[i].1.is_compute_at(&node_addr) {
                        found = Some(self.last_membership.membership.nodes[i].1.clone());
                        break;
                    }
                    i += 1;
                }
                match found {
                    Some(node) => {
                        assert(has_compute_member(before.members, node_addr@)) by {
                            assert(members_view(self.last_membership.membership.nodes@)[i as int].1
                                == NodeView::Compute(node_addr@));
                        }
                        self.slots.move_to(&node, slots.as_slice());
                        proof {
                            reveal_strlit("ok");
                        }
                        Response { value: Some(String::from_str("ok")) }
                    },
                    None => {
                        let text = debug_string(&node_addr);
                        let msg = String::from_str("no such compute node: ").concat(text.as_str());
                        Response { value: Some(msg) }
                    },
                }
            },
            EntryPayload::Normal(Request::UpdateWorldSnapshot { snapshot: _ }) => {
                proof {
                    assert(false);
                }
                Response { value: None }
            },
            EntryPayload::Membership(membership) => {
                self.last_membership = StoredMembership { log_id: Some(entry.log_id), membership };
                Response { value: None }
            },
        }
    }

    /// Applies the entries one after the other and answers each.
    pub fn apply_to_state_machine(&mut self, entries: Vec<Entry<M, W>>) -> (res: Vec<Response>)
        requires
            applied_all(old(self)@, entries@.map_values(|e: Entry<M, W>| e@)) is Some,
        ensures
            applied_all(old(self)@, entries@.map_values(|e: Entry<M, W>| e@)) == Some(
                (final(self)@, responses_view(res@)),
            ),
    {
        let ghost es = entries@.map_values(|e: Entry<M, W>| e@);
        let ghost start = self@;
        let total = entries.len();
        let mut pending: Vec<Entry<M, W>> = Vec::new();
        let mut entries = entries;
        while entries.len() > 0
            invariant
                entries@.map_values(|e: Entry<M, W>| e@) + pending@.map_values(
                    |e: Entry<M, W>| e@,
                ).reverse() == es,
            decreases entries@.len(),
        {
            let ghost before_e = entries@;
            let ghost before_p = pending@;
            let e = entries.pop().unwrap();
            pending.push(e);
            assert(before_e.map_values(|e: Entry<M, W>| e@) =~= entries@.map_values(
                |e: Entry<M, W>| e@,
            ).push(e@));
            assert(pending@.map_values(|e: Entry<M, W>| e@).reverse() =~= seq![e@] + before_p.map_values(
                |e: Entry<M, W>| e@,
            ).reverse());
            assert(entries@.map_values(|e: Entry<M, W>| e@) + pending@.map_values(
                |e: Entry<M, W>| e@,
            ).reverse() =~= es);
        }
        assert(pending@.map_values(|e: Entry<M, W>| e@).reverse() =~= es);
        let mut res: Vec<Response> = Vec::new();
        let mut done: usize = 0;
        while pending.len() > 0
            invariant
                total == es.len(),
                done + pending@.len() == es.len(),
                pending@.map_values(|e: Entry<M, W>| e@).reverse() == es.skip(done as int),
                applied_all(start, es) is Some,
                applied_all(start, es.take(done as int)) == Some((self@, responses_view(res@))),
            decreases pending@.len(),
        {
            let ghost before_p = pending@;
            let e = pending.pop().unwrap();
            assert(before_p.map_values(|e: Entry<M, W>| e@).reverse() =~= seq![e@]
                + pending@.map_values(|e: Entry<M, W>| e@).reverse());
            assert(es[done as int] == e@) by {
                assert(es.skip(done as int)[0] == e@);
            }
            assert(es.take(done + 1).drop_last() =~= es.take(done as int));
            proof {
                lemma_applied_prefix(start, es, (done + 1) as nat);
            }
            let ghost prev = res@;
            let r = self.apply(e);
            res.push(r);
            assert(responses_view(res@) =~= responses_view(prev).push(match r.value {
                Some(v) => Some(v@),
                None => None,
            }));
            assert(es.skip(done + 1) =~= pending@.map_values(|e: Entry<M, W>| e@).reverse()) by {
                assert(es.skip(done as int).drop_first() =~= es.skip(done + 1));
            }
            done += 1;
        }
        assert(es.take(done as int) =~= es);
        res
    }
}

/// A slot move to a member compute node leaves each listed slot assigned to
/// that node and answers `ok`.
pub proof fn law_move_slots_assigns<M, W>(s: MachineView<M, W>, e: EntryView<M, W>, i: int)
    requires
        applicable(s, e),
        e.payload matches PayloadView::MoveSlots(addr, slots) && has_compute_member(s.members, addr)
            && crate::slot::listed(slots, i),
        0 <= i < s.slots.len(),
    ensures
        e.payload matches PayloadView::MoveSlots(addr, _) && applied(s, e).0.slots[i]
            == NodeView::Compute(addr) && applied(s, e).1 == Some("ok"@),
{
}

/// A slot move to an address that no member compute node listens on
/// changes nothing but the last applied id, and says so in its answer.
pub proof fn law_unknown_target_changes_nothing<M, W>(s: MachineView<M, W>, e: EntryView<M, W>)
    requires
        e.payload matches PayloadView::MoveSlots(addr, _) && !has_compute_member(s.members, addr),
    ensures
        applied(s, e).0 == (MachineView { last_applied_log: Some(e.log_id), ..s }),
        e.payload matches PayloadView::MoveSlots(addr, _) && applied(s, e).1 == Some(
            no_such_node(addr),
        ),
{
}

/// After a run of entries, the last applied id is that of the last entry,
/// and the slot table keeps its size.
pub proof fn law_run_of_entries<M, W>(s: MachineView<M, W>, es: Seq<EntryView<M, W>>)
    requires
        applied_all(s, es) is Some,
    ensures
        es.len() > 0 ==> applied_all(s, es)->Some_0.0.last_applied_log == Some(es.last().log_id),
        es.len() == 0 ==> applied_all(s, es)->Some_0.0 == s,
        applied_all(s, es)->Some_0.0.slots.len() == s.slots.len(),
        applied_all(s, es)->Some_0.1.len() == es.len(),
    decreases es.len(),
{
    if es.len() > 0 {
        law_run_of_entries(s, es.drop_last());
    }
}

/// A slot move changes only the slots it lists: every other slot keeps its
/// node, and the table keeps its size, whether or not the target is a
/// member.
pub proof fn law_move_slots_keeps_other_slots<M, W>(s: MachineView<M, W>, e: EntryView<M, W>, i: int)
    requires
        e.payload matches PayloadView::MoveSlots(_, slots) && !crate::slot::listed(slots, i),
        0 <= i < s.slots.len(),
    ensures
        applied(s, e).0.slots.len() == s.slots.len(),
        applied(s, e).0.slots[i] == s.slots[i],
{
}

/// A compute member at any position of the member list is a target: a slot
/// move to its address is applied and answered `ok`. And only a member's
/// address is a target.
pub proof fn law_any_member_is_target<M, W>(s: MachineView<M, W>, e: EntryView<M, W>, i: int)
    requires
        0 <= i < s.members.len(),
        e.payload matches PayloadView::MoveSlots(addr, _) && s.members[i].1 == NodeView::Compute(
            addr,
        ),
    ensures
        e.payload matches PayloadView::MoveSlots(addr, _) && has_compute_member(s.members, addr),
        applied(s, e).1 == Some("ok"@),
{
    assert(s.members[i].1 == NodeView::Compute(e.payload->MoveSlots_0));
}

/// Only an address some compute member listens on is a target.
pub proof fn law_target_is_member(members: Seq<(u64, NodeView)>, addr: Seq<char>)
    ensures
        has_compute_member(members, addr) <==> exists|i: int|
            0 <= i < members.len() && #[trigger] members[i].1 == NodeView::Compute(addr),
{
}

/// An empty entry changes nothing but the last applied id, and answers
/// nothing.
pub proof fn law_blank_changes_nothing<M, W>(s: MachineView<M, W>, e: EntryView<M, W>)
    requires
        e.payload is Blank,
    ensures
        applied(s, e).0 == (MachineView { last_applied_log: Some(e.log_id), ..s }),
        applied(s, e).1 is None,
{
}

/// A membership entry records the new members and the entry's id, keeps the
/// slot table, and answers nothing.
pub proof fn law_membership_recorded<M, W>(s: MachineView<M, W>, e: EntryView<M, W>)
    requires
        e.payload is Membership,
    ensures
        applied(s, e).0.members == e.payload->Membership_1,
        applied(s, e).0.config == e.payload->Membership_0,
        applied(s, e).0.membership_log_id == Some(e.log_id),
        applied(s, e).0.last_applied_log == Some(e.log_id),
        applied(s, e).0.slots == s.slots,
        applied(s, e).1 is None,
{
}

/// Which entries can be applied: an empty entry, a membership entry, and a
/// slot move whose slots are all in the table, always; a slot move to an
/// address no compute member listens on, whatever its slots.
pub proof fn law_applicable<M, W>(s: MachineView<M, W>, e: EntryView<M, W>)
    ensures
        e.payload is Blank ==> applicable(s, e),
        e.payload is Membership ==> applicable(s, e),
        (e.payload matches PayloadView::MoveSlots(_, slots) && forall|k: int|
            0 <= k < slots.len() ==> #[trigger] slots[k] < s.slots.len()) ==> applicable(s, e),
        (e.payload matches PayloadView::MoveSlots(addr, _) && !has_compute_member(s.members, addr))
            ==> applicable(s, e),
{
}

/// Whether an entry is not a slot move that lists slot `i`.
pub open spec fn leaves_slot<M, W>(e: EntryView<M, W>, i: int) -> bool {
    match e.payload {
        PayloadView::MoveSlots(_, slots) => !crate::slot::listed(slots, i),
        _ => true,
    }
}

/// Over a run of entries, a slot that no slot move of the run lists keeps
/// its node.
pub proof fn law_run_keeps_unlisted_slot<M, W>(s: MachineView<M, W>, es: Seq<EntryView<M, W>>, i: int)
    requires
        applied_all(s, es) is Some,
        0 <= i < s.slots.len(),
        forall|k: int| 0 <= k < es.len() ==> leaves_slot(#[trigger] es[k], i),
    ensures
        applied_all(s, es)->Some_0.0.slots.len() == s.slots.len(),
        applied_all(s, es)->Some_0.0.slots[i] == s.slots[i],
    decreases es.len(),
{
    if es.len() > 0 {
        assert forall|k: int| 0 <= k < es.drop_last().len() implies leaves_slot(
            #[trigger] es.drop_last()[k],
            i,
        ) by {
            assert(es.drop_last()[k] == es[k]);
        }
        law_run_keeps_unlisted_slot(s, es.drop_last(), i);
        law_run_of_entries(s, es.drop_last());
        let s1 = applied_all(s, es.drop_last())->Some_0.0;
        let last = es.last();
        assert(es[es.len() - 1] == last);
        match last.payload {
            PayloadView::MoveSlots(_, slots) => {
                law_move_slots_keeps_other_slots(s1, last, i);
            },
            _ => {},
        }
    }
}

/// A run that is defined is defined on each of its prefixes.
proof fn lemma_applied_prefix<M, W>(s: MachineView<M, W>, es: Seq<EntryView<M, W>>, n: nat)
    requires
        applied_all(s, es) is Some,
        n <= es.len(),
    ensures
        applied_all(s, es.take(n as int)) is Some,
    decreases es.len(),
{
    if n < es.len() {
        assert(es.drop_last().take(n as int) =~= es.take(n as int));
        lemma_applied_prefix(s, es.drop_last(), n);
    } else {
        assert(es.take(n as int) =~= es);
    }
}

} // verus!
