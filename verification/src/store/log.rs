use vstd::prelude::*;

verus! {

/// Identifier of a raft log entry: the leader that proposed it (its term and
/// its node) and the entry's index.
#[derive(Debug, Clone, Copy, PartialEq, Eq)]
pub struct LogId {
    pub term: u64,
    pub node_id: u64,
    pub index: u64,
}

/// The order of log ids: by leader (term, then node), then by index.
pub open spec fn log_id_le(a: LogId, b: LogId) -> bool {
    ||| a.term < b.term
    ||| a.term == b.term && a.node_id < b.node_id
    ||| a.term == b.term && a.node_id == b.node_id && a.index <= b.index
}

/// The order of optional log ids, where no log id comes first.
pub open spec fn opt_log_id_le(a: Option<LogId>, b: Option<LogId>) -> bool {
    match (a, b) {
        (None, _) => true,
        (Some(_), None) => false,
        (Some(x), Some(y)) => log_id_le(x, y),
    }
}

/// Whether `a` comes no later than `b`.
pub fn opt_log_id_le_exec(a: &Option<LogId>, b: &Option<LogId>) -> (res: bool)
    ensures
        res == opt_log_id_le(*a, *b),
{
    match (a, b) {
        (None, _) => true,
        (Some(_), None) => false,
        (Some(x), Some(y)) => {
            x.term < y.term || (x.term == y.term && x.node_id < y.node_id) || (x.term == y.term
                && x.node_id == y.node_id && x.index <= y.index)
        },
    }
}

/// Entries ordered by strictly increasing index.
pub open spec fn sorted<E>(s: Seq<(LogId, E)>) -> bool {
    forall|i: int, j: int| 0 <= i < j < s.len() ==> #[trigger] s[i].0.index < #[trigger] s[j].0.index
}

/// Whether some entry has index `k`.
pub open spec fn has_index<E>(s: Seq<(LogId, E)>, k: u64) -> bool {
    exists|i: int| 0 <= i < s.len() && #[trigger] s[i].0.index == k
}

/// The position of the entry with index `k`.
pub open spec fn index_pos<E>(s: Seq<(LogId, E)>, k: u64) -> int {
    choose|i: int| 0 <= i < s.len() && #[trigger] s[i].0.index == k
}

/// A sequence of entries read as a map from index to entry.
pub open spec fn log_map<E>(s: Seq<(LogId, E)>) -> Map<u64, (LogId, E)> {
    Map::new(|k: u64| has_index(s, k), |k: u64| s[index_pos(s, k)])
}

/// In a sorted log, the entry at position `j` is the one the map gives for
/// its index.
proof fn lemma_log_map_at<E>(s: Seq<(LogId, E)>, j: int)
    requires
        sorted(s),
        0 <= j < s.len(),
    ensures
        log_map(s).contains_key(s[j].0.index),
        index_pos(s, s[j].0.index) == j,
        log_map(s)[s[j].0.index] == s[j],
{
    let k = s[j].0.index;
    assert(has_index(s, k));
    let p = index_pos(s, k);
    if p < j {
        assert(s[p].0.index < s[j].0.index);
    } else if p > j {
        assert(s[j].0.index < s[p].0.index);
    }
}

/// Two sorted logs with the same entries at the same places have the same
/// map, and a map is determined by what each position holds.
proof fn lemma_log_map_ext<E>(s: Seq<(LogId, E)>, m: Map<u64, (LogId, E)>)
    requires
        sorted(s),
        forall|j: int| 0 <= j < s.len() ==> m.contains_key(#[trigger] s[j].0.index) && m[s[j].0.index] == s[j],
        forall|k: u64| m.contains_key(k) ==> has_index(s, k),
    ensures
        log_map(s) == m,
{
    assert forall|k: u64| #[trigger] log_map(s).contains_key(k) == m.contains_key(k) by {
        if m.contains_key(k) {
            assert(has_index(s, k));
        }
        if log_map(s).contains_key(k) {
            let p = index_pos(s, k);
            assert(m.contains_key(s[p].0.index));
        }
    }
    assert forall|k: u64| #[trigger] log_map(s).contains_key(k) implies log_map(s)[k] == m[k] by {
        let p = index_pos(s, k);
        lemma_log_map_at(s, p);
    }
    assert(log_map(s) =~= m);
}

/// The raft log of a node: its entries, in order of index, each with its log
/// id, and the id of the last entry purged from it.
#[derive(Debug)]
pub struct RaftLog<E> {
    last_purged_log_id: Option<LogId>,
    entries: Vec<(LogId, E)>,
}

/// What the log holds: the last purged id and the last id.
#[derive(Debug)]
pub struct LogState {
    pub last_purged_log_id: Option<LogId>,
    pub last_log_id: Option<LogId>,
}

impl<E> RaftLog<E> {
    /// The entries in order of index, each with its id.
    pub closed spec fn spec_seq(&self) -> Seq<(LogId, E)> {
        self.entries@
    }

    /// The entries, by index.
    pub open spec fn spec_entries(&self) -> Map<u64, (LogId, E)> {
        log_map(self.spec_seq())
    }

    /// The id of the last purged entry.
    pub closed spec fn spec_last_purged(&self) -> Option<LogId> {
        self.last_purged_log_id
    }

    /// The log is kept in order of index, each entry under the index of its id.
    pub open spec fn wf(&self) -> bool {
        sorted(self.spec_seq())
    }

    /// The id of the entry with the highest index, if there is an entry.
    pub closed spec fn spec_last(&self) -> Option<LogId> {
        if self.entries@.len() == 0 {
            None
        } else {
            Some(self.entries@.last().0)
        }
    }

    /// The entries in order are those of the map, by strictly increasing
    /// index: the entry at each position is the one the map holds for its
    /// index.
    pub proof fn law_entries_in_order(&self, i: int, j: int)
        requires
            self.wf(),
            0 <= i < j < self.spec_seq().len(),
        ensures
            self.spec_seq()[i].0.index < self.spec_seq()[j].0.index,
            self.spec_entries().contains_key(self.spec_seq()[i].0.index),
            self.spec_entries()[self.spec_seq()[i].0.index] == self.spec_seq()[i],
    {
        lemma_log_map_at(self.spec_seq(), i);
    }

    /// The last log id of the log is that of the entry with the highest
    /// index, and there is none only when the log is empty.
    pub proof fn law_last_is_highest(&self)
        requires
            self.wf(),
        ensures
            self.spec_last() is None <==> self.spec_entries().dom() =~= Set::empty(),
            self.spec_last() matches Some(id) ==> self.spec_entries().contains_key(id.index)
                && self.spec_entries()[id.index].0 == id && forall|k: u64|
                #[trigger] self.spec_entries().contains_key(k) ==> k <= id.index,
    {
        let s = self.entries@;
        if s.len() > 0 {
            lemma_log_map_at(s, s.len() - 1);
            assert forall|k: u64| #[trigger] self.spec_entries().contains_key(k) implies k
                <= s.last().0.index by {
                let p = index_pos(s, k);
                if p < s.len() - 1 {
                    assert(s[p].0.index < s[s.len() - 1].0.index);
                }
            }
        } else {
            assert forall|k: u64| !#[trigger] self.spec_entries().contains_key(k) by {}
        }
    }

    /// An empty log from which nothing was purged.
    pub fn new() -> (res: Self)
        ensures
            res.wf(),
            res.spec_entries() == Map::<u64, (LogId, E)>::empty(),
            res.spec_last_purged() is None,
    {
        let res = RaftLog { last_purged_log_id: None, entries: Vec::new() };
        assert(res.spec_entries() =~= Map::<u64, (LogId, E)>::empty());
        res
    }

    /// Number of entries held.
    pub fn len(&self) -> (res: usize)
        requires
            self.wf(),
        ensures
            res == self.spec_entries().len(),
            res == self.spec_seq().len(),
    {
        proof {
            self.lemma_len();
        }
        self.entries.len()
    }

    pub proof fn lemma_len(&self)
        requires
            self.wf(),
        ensures
            self.spec_seq().len() == self.spec_entries().len(),
            self.spec_entries().len() == self.spec_seq().len(),
            self.spec_entries().dom().finite(),
    {
        let s = self.entries@;
        let keys = Seq::new(s.len(), |i: int| s[i].0.index);
        assert forall|i: int, j: int| 0 <= i < j < keys.len() implies keys[i] != keys[j] by {
            assert(s[i].0.index < s[j].0.index);
        }
        keys.unique_seq_to_set();
        assert(self.spec_entries().dom() =~= keys.to_set()) by {
            assert forall|k: u64| #[trigger] self.spec_entries().dom().contains(k) implies keys.to_set().contains(k) by {
                let p = index_pos(s, k);
                assert(keys[p] == k);
            }
            assert forall|k: u64| #[trigger] keys.to_set().contains(k) implies self.spec_entries().dom().contains(k) by {
                let p = choose|p: int| 0 <= p < keys.len() && keys[p] == k;
                assert(s[p].0.index == k);
            }
        }
    }

    /// The entry at position `pos` in order of index.
    pub fn entry_at(&self, pos: usize) -> (res: &(LogId, E))
        requires
            self.wf(),
            pos < self.spec_entries().len(),
        ensures
            *res == self.spec_seq()[pos as int],
            self.spec_entries().contains_key(res.0.index),
            self.spec_entries()[res.0.index] == *res,
    {
        proof {
            self.lemma_len();
            lemma_log_map_at(self.entries@, pos as int);
        }
        &self.entries[pos]
    }

    /// The position of the first entry whose index is at least `k`; the
    /// number of entries when there is none.
    fn first_at_least(&self, k: u64) -> (res: usize)
        requires
            self.wf(),
        ensures
            res <= self.entries@.len(),
            forall|i: int| 0 <= i < res ==> #[trigger] self.entries@[i].0.index < k,
            forall|i: int| res <= i < self.entries@.len() ==> #[trigger] self.entries@[i].0.index >= k,
    {
        let mut i: usize = 0;
        while i < self.entries.len()
            invariant_except_break
                i <= self.entries@.len(),
                forall|j: int| 0 <= j < i ==> #[trigger] self.entries@[j].0.index < k,
            ensures
                i <= self.entries@.len(),
                forall|j: int| 0 <= j < i ==> #[trigger] self.entries@[j].0.index < k,
                i < self.entries@.len() ==> self.entries@[i as int].0.index >= k,
            decreases self.entries@.len() - i,
        {
            if self.entries[i].0.index >= k {
                break;
            }
            i += 1;
        }
        assert forall|j: int| i <= j < self.entries@.len() implies #[trigger] self.entries@[j].0.index >= k by {
            if j > i {
                assert(self.entries@[i as int].0.index < self.entries@[j].0.index);
            }
        }
        i
    }

    /// What the log holds: the last purged id, and the id of the entry with
    /// the highest index, or the last purged id when the log is empty.
    pub fn get_log_state(&self) -> (res: LogState)
        requires
            self.wf(),
        ensures
            res.last_purged_log_id == self.spec_last_purged(),
            res.last_log_id == if self.spec_last() is Some {
                self.spec_last()
            } else {
                self.spec_last_purged()
            },
    {
        let last = if self.entries.len() == 0 {
            self.last_purged_log_id
        } else {
            Some(self.entries[self.entries.len() - 1].0)
        };
        LogState { last_purged_log_id: self.last_purged_log_id, last_log_id: last }
    }

    /// The positions, in order of index, of the entries whose index is at
    /// least `start` and below `end` (no upper limit when `end` is `None`):
    /// they are the positions from `res.0` up to and excluding `res.1`.
    pub fn range(&self, start: u64, end: Option<u64>) -> (res: (usize, usize))
        requires
            self.wf(),
        ensures
            res.0 <= res.1 <= self.spec_entries().len(),
            forall|k: u64|
                #![trigger self.spec_entries().contains_key(k)]
                self.spec_entries().contains_key(k) && start <= k && (end matches Some(e) ==> k
                    < e) <==> exists|p: int|
                    res.0 <= p < res.1 && #[trigger] self.spec_seq()[p].0.index == k,
    {
        proof {
            self.lemma_len();
        }
        let a = self.first_at_least(start);
        let b = match end {
            Some(e) => {
                let b0 = self.first_at_least(e);
                if b0 < a {
                    a
                } else {
                    b0
                }
            },
            None => self.entries.len(),
        };
        let ghost s = self.entries@;
        assert forall|k: u64|
            #![trigger self.spec_entries().contains_key(k)]
            self.spec_entries().contains_key(k) && start <= k && (end matches Some(e) ==> k < e)
                <==> exists|p: int| a <= p < b && #[trigger] s[p].0.index == k by {
            if self.spec_entries().contains_key(k) && start <= k && (end matches Some(e) ==> k
                < e) {
                let p = index_pos(s, k);
                assert(a <= p < b);
            }
            if exists|p: int| a <= p < b && #[trigger] s[p].0.index == k {
                let p = choose|p: int| a <= p < b && #[trigger] s[p].0.index == k;
                lemma_log_map_at(s, p);
            }
        }
        (a, b)
    }

    /// Stores an entry under the index of its id, in place of the entry
    /// that index held.
    pub fn insert(&mut self, id: LogId, entry: E)
        requires
            old(self).wf(),
        ensures
            final(self).wf(),
            final(self).spec_entries() == old(self).spec_entries().insert(id.index, (id, entry)),
            final(self).spec_last_purged() == old(self).spec_last_purged(),
    {
        let ghost s = self.entries@;
        let p = self.first_at_least(id.index);
        let ghost m = log_map(s).insert(id.index, (id, entry));
        if p < self.entries.len() && self.entries[p].0.index == id.index {
            self.entries.set(p, (id, entry));
            let ghost t = self.entries@;
            assert(t == s.update(p as int, (id, entry)));
            assert(sorted(t));
            assert forall|j: int| 0 <= j < t.len() implies m.contains_key(#[trigger] t[j].0.index)
                && m[t[j].0.index] == t[j] by {
                if j != p {
                    lemma_log_map_at(s, j);
                }
            }
            assert forall|k: u64| m.contains_key(k) implies has_index(t, k) by {
                if k != id.index {
                    let q = index_pos(s, k);
                    assert(t[q].0.index == k);
                } else {
                    assert(t[p as int].0.index == k);
                }
            }
            proof {
                lemma_log_map_ext(t, m);
            }
        } else {
            self.entries.insert(p, (id, entry));
            let ghost t = self.entries@;
            assert(t == s.insert(p as int, (id, entry)));
            assert forall|i: int, j: int| 0 <= i < j < t.len() implies #[trigger] t[i].0.index
                < #[trigger] t[j].0.index by {
                if i < p && j > p {
                    assert(t[j] == s[j - 1]);
                    if j - 1 > p {
                        assert(s[p as int].0.index < s[j - 1].0.index);
                    }
                } else if j > p && i > p {
                    assert(t[i] == s[i - 1] && t[j] == s[j - 1]);
                } else if i == p && j > p {
                    assert(t[j] == s[j - 1]);
                    assert(s[j - 1].0.index >= id.index);
                    assert(s[j - 1].0.index != id.index) by {
                        if j - 1 > p {
                            assert(s[p as int].0.index < s[j - 1].0.index);
                        }
                    }
                }
            }
            assert forall|j: int| 0 <= j < t.len() implies m.contains_key(#[trigger] t[j].0.index)
                && m[t[j].0.index] == t[j] by {
                if j < p {
                    lemma_log_map_at(s, j);
                } else if j > p {
                    assert(t[j] == s[j - 1]);
                    lemma_log_map_at(s, j - 1);
                    assert(s[j - 1].0.index != id.index) by {
                        if j - 1 > p {
                            assert(s[p as int].0.index < s[j - 1].0.index);
                        }
                    }
                }
            }
            assert forall|k: u64| m.contains_key(k) implies has_index(t, k) by {
                if k != id.index {
                    let q = index_pos(s, k);
                    if q < p {
                        assert(t[q].0.index == k);
                    } else {
                        assert(t[q + 1].0.index == k);
                    }
                } else {
                    assert(t[p as int].0.index == k);
                }
            }
            proof {
                lemma_log_map_ext(t, m);
            }
        }
    }
    /// Drops the entries from index `index` on.
    pub fn delete_conflict_logs_since(&mut self, index: u64)
        requires
            old(self).wf(),
        ensures
            final(self).wf(),
            final(self).spec_entries() == Map::new(
                |k: u64| old(self).spec_entries().contains_key(k) && k < index,
                |k: u64| old(self).spec_entries()[k],
            ),
            final(self).spec_last_purged() == old(self).spec_last_purged(),
    {
        let ghost s = self.entries@;
        let p = self.first_at_least(index);
        self.entries.truncate(p);
        let ghost t = self.entries@;
        assert(t =~= s.take(p as int));
        let ghost m = Map::new(
            |k: u64| log_map(s).contains_key(k) && k < index,
            |k: u64| log_map(s)[k],
        );
        assert forall|j: int| 0 <= j < t.len() implies m.contains_key(#[trigger] t[j].0.index)
            && m[t[j].0.index] == t[j] by {
            lemma_log_map_at(s, j);
        }
        assert forall|k: u64| m.contains_key(k) implies has_index(t, k) by {
            let q = index_pos(s, k);
            assert(t[q].0.index == k);
        }
        proof {
            lemma_log_map_ext(t, m);
        }
    }

    /// Records that the entries up to `log_id` are purged and drops the
    /// entries up to its index. The purged id never moves back.
    pub fn purge_logs_upto(&mut self, log_id: LogId)
        requires
            old(self).wf(),
            opt_log_id_le(old(self).spec_last_purged(), Some(log_id)),
        ensures
            final(self).wf(),
            final(self).spec_entries() == Map::new(
                |k: u64| old(self).spec_entries().contains_key(k) && k > log_id.index,
                |k: u64| old(self).spec_entries()[k],
            ),
            final(self).spec_last_purged() == Some(log_id),
    {
        let ghost s = self.entries@;
        self.last_purged_log_id = Some(log_id);
        let mut p = self.first_at_least(log_id.index);
        if p < self.entries.len() && self.entries[p].0.index == log_id.index {
            p = p + 1;
        }
        assert forall|i: int| p <= i < s.len() implies #[trigger] s[i].0.index > log_id.index by {
            if i > p - 1 && p > 0 && s[p - 1].0.index == log_id.index {
                assert(s[p - 1].0.index < s[i].0.index);
            }
        }
        let rest = self.entries.split_off(p);
        self.entries = rest;
        let ghost t = self.entries@;
        assert(t =~= s.subrange(p as int, s.len() as int));
        let ghost m = Map::new(
            |k: u64| log_map(s).contains_key(k) && k > log_id.index,
            |k: u64| log_map(s)[k],
        );
        assert forall|j: int| 0 <= j < t.len() implies m.contains_key(#[trigger] t[j].0.index)
            && m[t[j].0.index] == t[j] by {
            lemma_log_map_at(s, j + p);
        }
        assert forall|k: u64| m.contains_key(k) implies has_index(t, k) by {
            let q = index_pos(s, k);
            assert(q >= p);
            assert(t[q - p].0.index == k);
        }
        proof {
            lemma_log_map_ext(t, m);
        }
    }
}

/// Log ids are totally ordered: the order is reflexive, antisymmetric,
/// transitive and total, so the purged id, which may only move forward,
/// never moves back over a run of purges.
pub proof fn law_log_id_order(a: LogId, b: LogId, c: LogId)
    ensures
        log_id_le(a, a),
        log_id_le(a, b) && log_id_le(b, a) ==> a == b,
        log_id_le(a, b) && log_id_le(b, c) ==> log_id_le(a, c),
        log_id_le(a, b) || log_id_le(b, a),
{
}

/// Log ids are ordered by leader term first, then by leader node, then by
/// index.
pub proof fn law_log_id_lexicographic(a: LogId, b: LogId)
    ensures
        a.term < b.term ==> log_id_le(a, b) && !log_id_le(b, a),
        a.term == b.term && a.node_id < b.node_id ==> log_id_le(a, b) && !log_id_le(b, a),
        a.term == b.term && a.node_id == b.node_id ==> (log_id_le(a, b) <==> a.index <= b.index),
        opt_log_id_le(None, Some(b)),
        !opt_log_id_le(Some(a), None),
        opt_log_id_le(Some(a), Some(b)) == log_id_le(a, b),
{
}

/// An entry written to the log is read back under its index; the other
/// indexes keep their entries.
pub proof fn law_insert_reads_back<E>(m: Map<u64, (LogId, E)>, id: LogId, entry: E, k: u64)
    ensures
        m.insert(id.index, (id, entry))[id.index] == (id, entry),
        k != id.index ==> (m.insert(id.index, (id, entry)).contains_key(k) == m.contains_key(k)
            && (m.contains_key(k) ==> m.insert(id.index, (id, entry))[k] == m[k])),
{
}

} // verus!
