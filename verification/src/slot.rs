use vstd::prelude::*;

use crate::node::{Node, NodeView};

verus! {

/// Grid coordinates of a world position. On each axis the world spans
/// `-100000..=100000`; the coordinate is shifted by `100000`, divided by
/// `20000` and truncated toward zero. Values beyond the grid are kept as they
/// are and clamped when a slot is chosen.
#[derive(Debug, Clone, Copy, PartialEq, Eq)]
pub struct Cell {
    pub x: i64,
    pub y: i64,
}

/// `v` limited to `lo..=hi`.
pub open spec fn clamp(v: int, lo: int, hi: int) -> int {
    if v < lo {
        lo
    } else if v > hi {
        hi
    } else {
        v
    }
}

/// The slot that holds a cell: the column, limited to `0..=10`, plus ten
/// times the row, limited to `0..=9`.
pub open spec fn slot_of(cell: Cell) -> int {
    clamp(cell.x as int, 0, 10) + 10 * clamp(cell.y as int, 0, 9)
}

/// The `n` consecutive slots from `start`.
pub open spec fn slot_run(start: int, n: int) -> Seq<usize>
    recommends
        n >= 0,
{
    Seq::new(n as nat, |i: int| (start + i) as usize)
}

/// The first `rows` rows of a rectangle of slots whose top-left slot is
/// `lo` and which is `cols` slots wide, row after row.
pub open spec fn area_rows(lo: int, cols: int, rows: nat) -> Seq<usize>
    decreases rows,
{
    if rows == 0 {
        Seq::empty()
    } else {
        area_rows(lo, cols, (rows - 1) as nat) + slot_run(lo + 10 * (rows - 1), cols)
    }
}

/// The rectangle of slots spanned by the slots `lo <= hi`: the rows from
/// `lo / 10` to `hi / 10`, and in each the columns from `lo % 10` to
/// `hi % 10`.
pub open spec fn area(lo: int, hi: int) -> Seq<usize> {
    area_rows(lo, hi % 10 - lo % 10 + 1, (hi / 10 - lo / 10 + 1) as nat)
}

/// The nodes that the in-range slots of `slots` are assigned to in `table`,
/// in the order of `slots`; slots past the end of the table are skipped.
pub open spec fn nodes_at(table: Seq<NodeView>, slots: Seq<usize>) -> Seq<NodeView>
    decreases slots.len(),
{
    if slots.len() == 0 {
        Seq::empty()
    } else {
        let last = slots.last();
        nodes_at(table, slots.drop_last()) + if last < table.len() {
            seq![table[last as int]]
        } else {
            Seq::empty()
        }
    }
}

/// The positions in `items` that hold `v`, in increasing order.
pub open spec fn positions(items: Seq<NodeView>, v: NodeView) -> Seq<usize>
    decreases items.len(),
{
    if items.len() == 0 {
        Seq::empty()
    } else {
        positions(items.drop_last(), v) + if items.last() == v {
            seq![(items.len() - 1) as usize]
        } else {
            Seq::empty()
        }
    }
}

/// A list of groups read as a map: each node with its list of positions.
pub open spec fn groups_view(groups: Seq<(Node, Vec<usize>)>) -> Seq<(NodeView, Seq<usize>)> {
    groups.map_values(|g: (Node, Vec<usize>)| (g.0@, g.1@))
}

/// `groups` maps each node that occurs in `items` to the positions where it
/// occurs, and nothing else: no node has two groups, no group is empty, and
/// every position of `items` is in the group of its node.
pub open spec fn is_grouping(items: Seq<NodeView>, groups: Seq<(NodeView, Seq<usize>)>) -> bool {
    &&& forall|a: int, b: int| 0 <= a < b < groups.len() ==> groups[a].0 != groups[b].0
    &&& forall|g: int| 0 <= g < groups.len() ==> #[trigger] groups[g].1 == positions(items, groups[g].0)
    &&& forall|g: int| 0 <= g < groups.len() ==> #[trigger] groups[g].1.len() > 0
    &&& forall|j: int| #![trigger items[j]] 0 <= j < items.len() ==> exists|g: int| 0 <= g < groups.len() && #[trigger] groups[g].0 == items[j]
}

proof fn lemma_positions_absent(items: Seq<NodeView>, v: NodeView)
    requires
        forall|j: int| 0 <= j < items.len() ==> items[j] != v,
    ensures
        positions(items, v).len() == 0,
    decreases items.len(),
{
    if items.len() > 0 {
        lemma_positions_absent(items.drop_last(), v);
    }
}

/// A position is in the list of the positions of `v` exactly when `v` is
/// there.
proof fn lemma_positions_contains(items: Seq<NodeView>, v: NodeView, j: usize)
    requires
        items.len() <= usize::MAX,
    ensures
        positions(items, v).contains(j) <==> j < items.len() && items[j as int] == v,
    decreases items.len(),
{
    if items.len() > 0 {
        let p = positions(items.drop_last(), v);
        lemma_positions_contains(items.drop_last(), v, j);
        if positions(items, v).contains(j) {
            let q = choose|q: int| 0 <= q < positions(items, v).len() && positions(items, v)[q] == j;
            if q < p.len() {
                assert(p[q] == j);
                assert(p.contains(j));
            }
        }
        if j < items.len() && items[j as int] == v {
            if j < items.len() - 1 {
                assert(items.drop_last()[j as int] == v);
                assert(p.contains(j));
                let q = choose|q: int| 0 <= q < p.len() && p[q] == j;
                assert(positions(items, v)[q] == j);
            } else {
                assert(positions(items, v)[p.len() as int] == j);
            }
        }
    }
}

/// The nodes found for a query follow the queried slots in order: a slot in
/// range appends its node, a slot past the end adds nothing, and no slot
/// finds nothing.
pub proof fn law_nodes_at_in_order(table: Seq<NodeView>, slots: Seq<usize>, x: usize)
    ensures
        nodes_at(table, Seq::empty()) == Seq::<NodeView>::empty(),
        x < table.len() ==> nodes_at(table, slots.push(x)) == nodes_at(table, slots).push(
            table[x as int],
        ),
        x >= table.len() ==> nodes_at(table, slots.push(x)) == nodes_at(table, slots),
{
    assert(slots.push(x).drop_last() =~= slots);
    assert(nodes_at(table, slots.push(x)) =~= nodes_at(table, slots) + if x < table.len() {
        seq![table[x as int]]
    } else {
        Seq::empty()
    });
}

/// The positions listed for a node are exactly the positions holding it, in
/// strictly increasing order.
pub proof fn law_positions_exact(items: Seq<NodeView>, v: NodeView, j: usize)
    requires
        items.len() <= usize::MAX,
    ensures
        positions(items, v).contains(j) <==> j < items.len() && items[j as int] == v,
        forall|a: int, b: int|
            0 <= a < b < positions(items, v).len() ==> positions(items, v)[a] < positions(items, v)[b],
    decreases items.len(),
{
    lemma_positions_contains(items, v, j);
    lemma_positions_increasing(items, v);
}

proof fn lemma_positions_increasing(items: Seq<NodeView>, v: NodeView)
    requires
        items.len() <= usize::MAX,
    ensures
        forall|q: int| 0 <= q < positions(items, v).len() ==> #[trigger] positions(items, v)[q] < items.len(),
        forall|a: int, b: int|
            0 <= a < b < positions(items, v).len() ==> positions(items, v)[a] < positions(items, v)[b],
    decreases items.len(),
{
    if items.len() > 0 {
        lemma_positions_increasing(items.drop_last(), v);
        let p = positions(items.drop_last(), v);
        let full = positions(items, v);
        assert forall|q: int| 0 <= q < full.len() implies #[trigger] full[q] < items.len() by {
            if q < p.len() {
                assert(full[q] == p[q]);
            }
        }
        assert forall|a: int, b: int| 0 <= a < b < full.len() implies full[a] < full[b] by {
            assert(full[a] == p[a]);
            if b < p.len() {
                assert(full[b] == p[b]);
            } else {
                assert(p[a] < items.len() - 1);
            }
        }
    }
}

/// A grouping is a partition: each position of `items` lies in exactly one
/// group, the group of the node it holds.
pub proof fn law_grouping_partition(items: Seq<NodeView>, groups: Seq<(NodeView, Seq<usize>)>, j: int)
    requires
        is_grouping(items, groups),
        0 <= j < items.len(),
        items.len() <= usize::MAX,
    ensures
        exists|g: int| 0 <= g < groups.len() && #[trigger] groups[g].1.contains(j as usize),
        forall|g: int|
            0 <= g < groups.len() && #[trigger] groups[g].1.contains(j as usize) ==> groups[g].0
                == items[j],
{
    let g = choose|g: int| 0 <= g < groups.len() && #[trigger] groups[g].0 == items[j];
    lemma_positions_contains(items, items[j], j as usize);
    assert(groups[g].1.contains(j as usize));
    assert forall|h: int| 0 <= h < groups.len() && #[trigger] groups[h].1.contains(j as usize)
        implies groups[h].0 == items[j] by {
        lemma_positions_contains(items, groups[h].0, j as usize);
    }
}

/// Reading a slot after a move: a moved slot holds the node it was moved
/// to, any other slot what it held before, and the table keeps its size.
pub proof fn law_move_reads_back(table: Seq<NodeView>, node: NodeView, slots: Seq<usize>, i: int)
    requires
        0 <= i < table.len(),
    ensures
        moved(table, node, slots).len() == table.len(),
        listed(slots, i) ==> moved(table, node, slots)[i] == node,
        !listed(slots, i) ==> moved(table, node, slots)[i] == table[i],
{
}

/// Moving the same slots twice leaves them with the node of the second move.
pub proof fn law_move_last_wins(table: Seq<NodeView>, a: NodeView, b: NodeView, slots: Seq<usize>)
    ensures
        moved(moved(table, a, slots), b, slots) == moved(table, b, slots),
{
    assert(moved(moved(table, a, slots), b, slots) =~= moved(table, b, slots));
}

/// Once every slot is moved to a compute node, the table passes the check
/// that all slots are assigned to compute nodes.
pub proof fn law_move_all_passes_check(table: Seq<NodeView>, addr: Seq<char>, slots: Seq<usize>)
    requires
        forall|i: int| 0 <= i < table.len() ==> listed(slots, i),
    ensures
        forall|i: int|
            0 <= i < table.len() ==> #[trigger] moved(table, NodeView::Compute(addr), slots)[i] is Compute,
{
}

/// Inside the grid (columns 0 to 10, rows 0 to 9) the slot of a cell is
/// its column plus ten times its row; a coordinate beyond the grid counts
/// as the nearest edge. Every cell lies in a slot from 0 to 100.
pub proof fn law_slot_of_cell(cell: Cell)
    ensures
        0 <= slot_of(cell) <= 100,
        0 <= cell.x <= 10 && 0 <= cell.y <= 9 ==> slot_of(cell) == cell.x + 10 * cell.y,
        0 <= cell.x <= 9 && 0 <= cell.y <= 9 ==> slot_of(cell) % 10 == cell.x && slot_of(cell)
            / 10 == cell.y,
        cell.x < 0 ==> slot_of(cell) == slot_of(Cell { x: 0, ..cell }),
        cell.x > 10 ==> slot_of(cell) == slot_of(Cell { x: 10, ..cell }),
        cell.y < 0 ==> slot_of(cell) == slot_of(Cell { y: 0, ..cell }),
        cell.y > 9 ==> slot_of(cell) == slot_of(Cell { y: 9, ..cell }),
{
}

proof fn lemma_area_rows(lo: int, cols: int, rows: nat)
    requires
        0 <= lo,
        1 <= cols,
        lo + 10 * rows + cols <= usize::MAX,
    ensures
        area_rows(lo, cols, rows).len() == rows * cols,
        forall|k: int|
            0 <= k < area_rows(lo, cols, rows).len() ==> lo <= #[trigger] area_rows(
                lo,
                cols,
                rows,
            )[k] <= lo + 10 * (rows - 1) + cols - 1,
    decreases rows,
{
    if rows > 0 {
        lemma_area_rows(lo, cols, (rows - 1) as nat);
        assert(rows * cols == (rows - 1) * cols + cols) by (nonlinear_arith);
        let prev = area_rows(lo, cols, (rows - 1) as nat);
        assert forall|k: int| 0 <= k < area_rows(lo, cols, rows).len() implies lo
            <= #[trigger] area_rows(lo, cols, rows)[k] <= lo + 10 * (rows - 1) + cols - 1 by {
            if k < prev.len() {
                assert(area_rows(lo, cols, rows)[k] == prev[k]);
            } else {
                let run = slot_run(lo + 10 * (rows - 1), cols);
                assert(area_rows(lo, cols, rows)[k] == run[k - prev.len()]);
            }
        }
    }
}

/// The rectangle from slot `lo` to slot `hi` has as many slots as rows
/// times columns, starts at `lo`, ends at `hi`, and holds only slots between
/// the two.
pub proof fn law_area_bounds(lo: int, hi: int)
    requires
        0 <= lo <= hi <= 100,
        lo % 10 <= hi % 10,
    ensures
        area(lo, hi).len() == (hi / 10 - lo / 10 + 1) * (hi % 10 - lo % 10 + 1),
        area(lo, hi)[0] == lo,
        area(lo, hi).last() == hi,
        forall|k: int| 0 <= k < area(lo, hi).len() ==> lo <= #[trigger] area(lo, hi)[k] <= hi,
{
    let cols = hi % 10 - lo % 10 + 1;
    let rows = (hi / 10 - lo / 10 + 1) as nat;
    lemma_area_rows(lo, cols, rows);
    lemma_area_rows(lo, cols, 1);
    assert(rows * cols >= 1) by (nonlinear_arith)
        requires
            rows >= 1,
            cols >= 1,
    ;
    assert(area_rows(lo, cols, 1) =~= slot_run(lo, cols)) by {
        assert(area_rows(lo, cols, 0) =~= Seq::<usize>::empty());
    }
    lemma_area_first(lo, cols, rows);
    assert(area(lo, hi).last() == hi) by {
        let prev = area_rows(lo, cols, (rows - 1) as nat);
        lemma_area_rows(lo, cols, (rows - 1) as nat);
        assert(area(lo, hi) == prev + slot_run(lo + 10 * (rows - 1), cols));
    }
}

proof fn lemma_area_rows_at(lo: int, cols: int, rows: nat, r: int, c: int)
    requires
        0 <= lo,
        1 <= cols,
        lo + 10 * rows + cols <= usize::MAX,
        0 <= r < rows,
        0 <= c < cols,
    ensures
        r * cols + c < area_rows(lo, cols, rows).len(),
        area_rows(lo, cols, rows)[r * cols + c] == lo + 10 * r + c,
    decreases rows,
{
    lemma_area_rows(lo, cols, rows);
    lemma_area_rows(lo, cols, (rows - 1) as nat);
    let prev = area_rows(lo, cols, (rows - 1) as nat);
    assert(r * cols + c < rows * cols) by (nonlinear_arith)
        requires
            0 <= r < rows,
            0 <= c < cols,
    ;
    if r < rows - 1 {
        assert(r * cols + c < (rows - 1) * cols) by (nonlinear_arith)
            requires
                0 <= r < rows - 1,
                0 <= c < cols,
        ;
        lemma_area_rows_at(lo, cols, (rows - 1) as nat, r, c);
        assert(area_rows(lo, cols, rows)[r * cols + c] == prev[r * cols + c]);
    } else {
        assert(r * cols == (rows - 1) * cols);
        assert(area_rows(lo, cols, rows)[r * cols + c] == slot_run(lo + 10 * (rows - 1), cols)[c]);
    }
}

/// The slot at each place of the rectangle from slot `lo` to slot `hi`:
/// place `r * cols + c` holds the slot in row `r` and column `c` counted
/// from `lo`, where `cols` is the width of the rectangle.
pub proof fn law_area_at(lo: int, hi: int, r: int, c: int)
    requires
        0 <= lo <= hi <= 100,
        lo % 10 <= hi % 10,
        0 <= r <= hi / 10 - lo / 10,
        0 <= c <= hi % 10 - lo % 10,
    ensures
        r * (hi % 10 - lo % 10 + 1) + c < area(lo, hi).len(),
        area(lo, hi)[r * (hi % 10 - lo % 10 + 1) + c] == lo + 10 * r + c,
{
    lemma_area_rows_at(lo, hi % 10 - lo % 10 + 1, (hi / 10 - lo / 10 + 1) as nat, r, c);
}

proof fn lemma_area_first(lo: int, cols: int, rows: nat)
    requires
        0 <= lo,
        1 <= cols,
        lo + 10 * rows + cols <= usize::MAX,
        rows >= 1,
    ensures
        area_rows(lo, cols, rows)[0] == lo,
    decreases rows,
{
    if rows > 1 {
        lemma_area_first(lo, cols, (rows - 1) as nat);
        lemma_area_rows(lo, cols, (rows - 1) as nat);
        assert((rows - 1) * cols >= 1) by (nonlinear_arith)
            requires
                rows - 1 >= 1,
                cols >= 1,
        ;
        let prev = area_rows(lo, cols, (rows - 1) as nat);
        assert(area_rows(lo, cols, rows)[0] == prev[0]);
    } else {
        assert(area_rows(lo, cols, 0) =~= Seq::<usize>::empty());
    }
}

/// Groups the positions of `items` by the node they hold.
fn group_by_node(items: &Vec<Node>) -> (groups: Vec<(Node, Vec<usize>)>)
    ensures
        is_grouping(items@.map_values(|n: Node| n@), groups_view(groups@)),
{
    let ghost all = items@.map_values(|n: Node| n@);
    let mut groups: Vec<(Node, Vec<usize>)> = Vec::new();
    let mut j: usize = 0;
    while j < items.len()
        invariant
            j <= items.len(),
            all == items@.map_values(|n: Node| n@),
            is_grouping(all.take(j as int), groups_view(groups@)),
        decreases items.len() - j,
    {
        let ghost before = all.take(j as int);
        let ghost after = all.take(j + 1);
        assert(after.drop_last() =~= before);
        assert(after.last() == items@[j as int]@);
        let mut k: usize = 0;
        let mut found = false;
        while k < groups.len()
            invariant_except_break
                !found,
                j < items.len(),
                k <= groups.len(),
                forall|g: int| 0 <= g < k ==> groups@[g].0@ != items@[j as int]@,
            ensures
                j < items.len(),
                k <= groups.len(),
                found ==> k < groups.len() && groups@[k as int].0@ == items@[j as int]@,
                !found ==> forall|g: int| 0 <= g < groups.len() ==> groups@[g].0@ != items@[j as int]@,
            decreases groups.len() - k,
        {
            if groups[k].0.same_as(&items[j]) {
                found = true;
                break;
            }
            k += 1;
        }
        let ghost old_view = groups_view(groups@);
        if found {
            let ghost old_groups = groups@;
            let mut tmp: (Node, Vec<usize>) = (Node::Unknow, Vec::new());
            groups.set_and_swap(k, &mut tmp);
            tmp.1.push(j);
            groups.set_and_swap(k, &mut tmp);
            let ghost new_view = groups_view(groups@);
            assert(groups@ == old_groups.update(k as int, groups@[k as int]));
            assert(new_view[k as int].0 == old_view[k as int].0);
            assert(new_view[k as int].1 == old_view[k as int].1.push(j));
            assert forall|g: int| 0 <= g < new_view.len() implies #[trigger] new_view[g].1
                == positions(after, new_view[g].0) by {
                if g != k {
                    assert(new_view[g] == old_view[g]);
                    assert(old_view[g].0 != old_view[k as int].0);
                    assert(positions(after, new_view[g].0) == positions(before, new_view[g].0));
                } else {
                    assert(positions(after, new_view[g].0) == positions(before, new_view[g].0).push(j));
                }
            }
            assert forall|i: int| #![trigger after[i]] 0 <= i < after.len() implies exists|g: int|
                0 <= g < new_view.len() && #[trigger] new_view[g].0 == after[i] by {
                if i < j {
                    assert(before[i] == after[i]);
                    let g = choose|g: int| 0 <= g < old_view.len() && #[trigger] old_view[g].0
                        == before[i];
                    assert(new_view[g].0 == old_view[g].0);
                } else {
                    assert(new_view[k as int].0 == after[i]);
                }
            }
            assert forall|g: int| 0 <= g < new_view.len() implies #[trigger] new_view[g].1.len() > 0 by {
                if g != k {
                    assert(new_view[g] == old_view[g]);
                }
            }
            assert forall|a: int, b: int| 0 <= a < b < new_view.len() implies new_view[a].0 != new_view[b].0 by {
                assert(new_view[a].0 == old_view[a].0);
                assert(new_view[b].0 == old_view[b].0);
            }
            assert(is_grouping(after, new_view));
        } else {
            let node = items[j].clone();
            let mut ids: Vec<usize> = Vec::new();
            ids.push(j);
            groups.push((node, ids));
            let ghost new_view = groups_view(groups@);
            assert forall|i: int| #![trigger before[i]] 0 <= i < before.len() implies before[i] != items@[j as int]@ by {
                let g = choose|g: int| 0 <= g < old_view.len() && #[trigger] old_view[g].0
                    == before[i];
            }
            proof {
                lemma_positions_absent(before, items@[j as int]@);
            }
            assert forall|g: int| 0 <= g < new_view.len() implies #[trigger] new_view[g].1
                == positions(after, new_view[g].0) by {
                if g < old_view.len() {
                    assert(new_view[g] == old_view[g]);
                    assert(new_view[g].0 != items@[j as int]@);
                } else {
                    assert(positions(before, new_view[g].0) =~= Seq::<usize>::empty());
                    assert(new_view[g].1 =~= seq![j]);
                }
            }
            assert forall|i: int| #![trigger after[i]] 0 <= i < after.len() implies exists|g: int|
                0 <= g < new_view.len() && #[trigger] new_view[g].0 == after[i] by {
                if i < j {
                    assert(before[i] == after[i]);
                    let g = choose|g: int| 0 <= g < old_view.len() && #[trigger] old_view[g].0
                        == before[i];
                    assert(new_view[g].0 == after[i]);
                } else {
                    assert(new_view[old_view.len() as int].0 == after[i]);
                }
            }
            assert forall|g: int| 0 <= g < new_view.len() implies #[trigger] new_view[g].1.len() > 0 by {
                if g < old_view.len() {
                    assert(new_view[g] == old_view[g]);
                }
            }
            assert forall|a: int, b: int| 0 <= a < b < new_view.len() implies new_view[a].0 != new_view[b].0 by {
                assert(new_view[a] == old_view[a]);
                if b < old_view.len() {
                    assert(new_view[b] == old_view[b]);
                }
            }
            assert(is_grouping(after, new_view));
        }
        j += 1;
    }
    assert(all.take(items.len() as int) =~= all);
    groups
}

/// The table that assigns each slot of the world to a node.
#[derive(Debug)]
pub struct Slots {
    inner: Vec<Node>,
}

impl View for Slots {
    type V = Seq<NodeView>;

    closed spec fn view(&self) -> Seq<NodeView> {
        self.inner@.map_values(|n: Node| n@)
    }
}

/// Number of slots in a fresh table.
pub const DEFAULT_SLOTS: usize = 100;

impl Default for Slots {
    /// A table of 100 slots, none of them assigned yet.
    fn default() -> (res: Self)
        ensures
            res@ == Seq::new(DEFAULT_SLOTS as nat, |i: int| NodeView::Unknow),
    {
        let mut inner: Vec<Node> = Vec::new();
        let mut i: usize = 0;
        while i < DEFAULT_SLOTS
            invariant
                i <= DEFAULT_SLOTS,
                inner@.len() == i,
                forall|k: int| 0 <= k < i ==> inner@[k] == Node::Unknow,
            decreases DEFAULT_SLOTS - i,
        {
            inner.push(Node::Unknow);
            i += 1;
        }
        let res = Slots { inner };
        assert(res@ =~= Seq::new(DEFAULT_SLOTS as nat, |i: int| NodeView::Unknow));
        res
    }
}

impl Clone for Slots {
    fn clone(&self) -> (res: Self)
        ensures
            res@ == self@,
    {
        let mut inner: Vec<Node> = Vec::new();
        let mut i: usize = 0;
        while i < self.inner.len()
            invariant
                i <= self.inner@.len(),
                inner@.len() == i,
                forall|k: int| 0 <= k < i ==> inner@[k] == self.inner@[k],
            decreases self.inner@.len() - i,
        {
            inner.push(self.inner[i].clone());
            i += 1;
        }
        let res = Slots { inner };
        assert(res@ =~= self@);
        res
    }
}

/// Whether `i` is one of `slots`.
pub open spec fn listed(slots: Seq<usize>, i: int) -> bool {
    exists|m: int| 0 <= m < slots.len() && slots[m] == i
}

/// The table once each slot of `slots` is assigned to `node`.
pub open spec fn moved(table: Seq<NodeView>, node: NodeView, slots: Seq<usize>) -> Seq<NodeView> {
    Seq::new(table.len(), |i: int| if listed(slots, i) { node } else { table[i] })
}

/// The smaller of two slots.
pub open spec fn low(a: int, b: int) -> int {
    if a > b {
        b
    } else {
        a
    }
}

/// The larger of two slots.
pub open spec fn high(a: int, b: int) -> int {
    if a > b {
        a
    } else {
        b
    }
}

impl Slots {
    /// A table with the given assignment, slot by slot.
    pub fn from_nodes(nodes: Vec<Node>) -> (res: Self)
        ensures
            res@ == nodes@.map_values(|n: Node| n@),
    {
        Slots { inner: nodes }
    }

    /// The assignment, slot by slot.
    pub fn nodes(&self) -> (res: &Vec<Node>)
        ensures
            res@.map_values(|n: Node| n@) == self@,
    {
        &self.inner
    }

    /// Number of slots in the table.
    pub fn len(&self) -> (res: usize)
        ensures
            res == self@.len(),
    {
        self.inner.len()
    }

    /// The node that `slot` is assigned to; `None` past the end of the table.
    pub fn get_node(&self, slot: usize) -> (res: Option<&Node>)
        ensures
            slot < self@.len() ==> res is Some && res->Some_0@ == self@[slot as int],
            slot >= self@.len() ==> res is None,
    {
        if slot < self.inner.len() {
            Some(&self.inner[slot])
        } else {
            None
        }
    }

    /// Groups the in-range slots of `slots` by the node they are assigned
    /// to. A group lists positions in the sequence of the nodes found, that
    /// is in `slots` once the slots past the end of the table are left out.
    pub fn get_nodes(&self, slots: Vec<usize>) -> (res: Vec<(Node, Vec<usize>)>)
        ensures
            is_grouping(nodes_at(self@, slots@), groups_view(res@)),
    {
        let mut found: Vec<Node> = Vec::new();
        let mut i: usize = 0;
        while i < slots.len()
            invariant
                i <= slots@.len(),
                found@.map_values(|n: Node| n@) == nodes_at(self@, slots@.take(i as int)),
            decreases slots@.len() - i,
        {
            let ghost prev = found@;
            assert(slots@.take(i + 1).drop_last() =~= slots@.take(i as int));
            if let Some(node) = self.get_node(slots[i]) {
                found.push(node.clone());
                assert(found@.map_values(|n: Node| n@) =~= prev.map_values(|n: Node| n@).push(node@));
            } else {
                assert(found@.map_values(|n: Node| n@) =~= prev.map_values(|n: Node| n@));
            }
            i += 1;
        }
        assert(slots@.take(slots@.len() as int) =~= slots@);
        group_by_node(&found)
    }

    /// Whether every slot is assigned to a compute node.
    pub fn check(&self) -> (res: bool)
        ensures
            res == forall|i: int| 0 <= i < self@.len() ==> #[trigger] self@[i] is Compute,
    {
        let mut i: usize = 0;
        while i < self.inner.len()
            invariant
                i <= self@.len(),
                self@.len() == self.inner@.len(),
                forall|k: int| 0 <= k < i ==> #[trigger] self@[k] is Compute,
            decreases self.inner@.len() - i,
        {
            if let Node::Compute(_) = &self.inner[i] {
            } else {
                assert(!(self@[i as int] is Compute));
                return false;
            }
            i += 1;
        }
        true
    }

    /// Assigns each slot of `slots` to `node`; the other slots keep their
    /// node.
    pub fn move_to(&mut self, node: &Node, slots: &[usize])
        requires
            forall|k: int| 0 <= k < slots@.len() ==> #[trigger] slots@[k] < old(self)@.len(),
        ensures
            final(self)@ == moved(old(self)@, node@, slots@),
    {
        let ghost before = self@;
        let mut k: usize = 0;
        while k < slots.len()
            invariant
                k <= slots@.len(),
                before.len() == self@.len(),
                self@.len() == self.inner@.len(),
                forall|m: int| 0 <= m < slots@.len() ==> #[trigger] slots@[m] < before.len(),
                forall|i: int|
                    0 <= i < before.len() ==> #[trigger] self@[i] == if listed(
                        slots@.take(k as int),
                        i,
                    ) {
                        node@
                    } else {
                        before[i]
                    },
            decreases slots@.len() - k,
        {
            let slot = slots[k];
            let ghost prev = self@;
            self.inner.set(slot, node.clone());
            assert(self@ =~= prev.update(slot as int, node@));
            let ghost now = slots@.take(k + 1);
            assert(now =~= slots@.take(k as int).push(slot));
            assert forall|i: int| 0 <= i < before.len() implies #[trigger] self@[i] == if listed(
                now,
                i,
            ) {
                node@
            } else {
                before[i]
            } by {
                if listed(slots@.take(k as int), i) {
                    let m = choose|m: int| 0 <= m < k && slots@.take(k as int)[m] == i;
                    assert(now[m] == i);
                }
                if i == slot {
                    assert(now[k as int] == slot);
                }
                if listed(now, i) && i != slot {
                    let m = choose|m: int| 0 <= m < now.len() && now[m] == i;
                    assert(slots@.take(k as int)[m] == i);
                }
            }
            k += 1;
        }
        assert(slots@.take(slots@.len() as int) =~= slots@);
        assert(self@ =~= moved(before, node@, slots@));
    }

    /// Groups all slots of the table by the node they are assigned to.
    pub fn with_node(&self) -> (res: Vec<(Node, Vec<usize>)>)
        ensures
            is_grouping(self@, groups_view(res@)),
    {
        group_by_node(&self.inner)
    }

    /// The slot that holds a cell.
    pub fn from_position(position: &Cell) -> (res: usize)
        ensures
            res == slot_of(*position),
            res <= 100,
    {
        let x: i64 = if position.x < 0 {
            0
        } else if position.x > 10 {
            10
        } else {
            position.x
        };
        let y: i64 = if position.y < 0 {
            0
        } else if position.y > 9 {
            9
        } else {
            position.y
        };
        (x + 10 * y) as usize
    }

    /// The slots of the rectangle whose corners are the cells `min` and
    /// `max`, row after row. The slots of the two corners are ordered first,
    /// so either may be the larger.
    pub fn from_area(min: &Cell, max: &Cell) -> (res: Vec<usize>)
        requires
            low(slot_of(*min), slot_of(*max)) % 10 <= high(slot_of(*min), slot_of(*max)) % 10,
        ensures
            res@ == area(low(slot_of(*min), slot_of(*max)), high(slot_of(*min), slot_of(*max))),
    {
        let mut res: Vec<usize> = Vec::new();
        let mut min: usize = Slots::from_position(min);
        let mut max: usize = Slots::from_position(max);
        if min > max {
            let tmp = min;
            min = max;
            max = tmp;
        }
        let min_x = min % 10;
        let min_y = min / 10;
        let max_x = max % 10;
        let max_y = max / 10;
        let cols = max_x - min_x;
        let mut i: usize = 0;
        while i <= max_y - min_y
            invariant
                min <= max <= 100,
                min_x == min % 10,
                min_y == min / 10,
                max_x == max % 10,
                max_y == max / 10,
                min_x <= max_x,
                cols == max_x - min_x,
                min_y <= max_y,
                i <= max_y - min_y + 1,
                res@ == area_rows(min as int, cols + 1, i as nat),
            decreases max_y - min_y + 1 - i,
        {
            let start = min + i * 10;
            let mut s = start;
            while s <= start + cols
                invariant
                    min <= max <= 100,
                    i <= max_y - min_y,
                    max_y <= 10,
                    start == min + i * 10,
                    cols <= 9,
                    start <= s <= start + cols + 1,
                    res@ == area_rows(min as int, cols + 1, i as nat) + slot_run(
                        start as int,
                        s - start,
                    ),
                decreases start + cols + 1 - s,
            {
                res.push(s);
                assert(slot_run(start as int, s + 1 - start) =~= slot_run(start as int, s - start).push(s));
                s += 1;
            }
            i += 1;
        }
        res
    }
}

} // verus!
