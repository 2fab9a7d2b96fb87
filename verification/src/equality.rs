//! Copy constraints and the equivalence classes that they generate.
use crate::column::Cell;
use vstd::prelude::*;

verus! {

/// An unordered pair of cells that have to carry the same value.
#[derive(Clone, Copy, Debug, PartialEq, Eq, Structural)]
pub struct EqualityConstraint {
    pub left: Cell,
    pub right: Cell,
}

/// Whether the constraints force two cells to carry the same value: the
/// least equivalence relation that holds between the two cells of every
/// constraint. Each further constraint joins the classes of its two cells.
pub open spec fn linked(constraints: Seq<EqualityConstraint>, a: Cell, b: Cell) -> bool
    decreases constraints.len(),
{
    if constraints.len() == 0 {
        a == b
    } else {
        let rest = constraints.drop_last();
        let last = constraints.last();
        ||| linked(rest, a, b)
        ||| linked(rest, a, last.left) && linked(rest, last.right, b)
        ||| linked(rest, a, last.right) && linked(rest, last.left, b)
    }
}

/// `linked` is reflexive, symmetric and transitive.
pub proof fn lemma_linked_is_equivalence(constraints: Seq<EqualityConstraint>)
    ensures
        forall|a: Cell| #[trigger] linked(constraints, a, a),
        forall|a: Cell, b: Cell| #[trigger] linked(constraints, a, b) ==> linked(constraints, b, a),
        forall|a: Cell, b: Cell, c: Cell|
            #[trigger] linked(constraints, a, b) && #[trigger] linked(constraints, b, c) ==> linked(
                constraints,
                a,
                c,
            ),
    decreases constraints.len(),
{
    if constraints.len() > 0 {
        let rest = constraints.drop_last();
        let x = constraints.last().left;
        let y = constraints.last().right;
        lemma_linked_is_equivalence(rest);
        assert forall|a: Cell| #[trigger] linked(constraints, a, a) by {
            assert(linked(rest, a, a));
        }
        assert forall|a: Cell, b: Cell| #[trigger] linked(constraints, a, b) implies linked(
            constraints,
            b,
            a,
        ) by {
            if linked(rest, a, b) {
                assert(linked(rest, b, a));
            } else if linked(rest, a, x) && linked(rest, y, b) {
                assert(linked(rest, b, y) && linked(rest, x, a));
            } else {
                assert(linked(rest, a, y) && linked(rest, x, b));
                assert(linked(rest, b, x) && linked(rest, y, a));
            }
        }
        assert forall|a: Cell, b: Cell, c: Cell|
            #[trigger] linked(constraints, a, b) && #[trigger] linked(
                constraints,
                b,
                c,
            ) implies linked(constraints, a, c) by {
            lemma_join_is_transitive(rest, x, y, a, b, c);
        }
    }
}

/// One step of transitivity, when the relation of `rest` is joined along
/// the pair (`x`, `y`).
proof fn lemma_join_is_transitive(
    rest: Seq<EqualityConstraint>,
    x: Cell,
    y: Cell,
    a: Cell,
    b: Cell,
    c: Cell,
)
    requires
        forall|a: Cell, b: Cell| #[trigger] linked(rest, a, b) ==> linked(rest, b, a),
        forall|a: Cell, b: Cell, c: Cell|
            #[trigger] linked(rest, a, b) && #[trigger] linked(rest, b, c) ==> linked(rest, a, c),
        joined(rest, x, y, a, b),
        joined(rest, x, y, b, c),
    ensures
        joined(rest, x, y, a, c),
{
    if linked(rest, a, b) {
        if linked(rest, b, c) {
        } else if linked(rest, b, x) && linked(rest, y, c) {
            assert(linked(rest, a, x));
        } else {
            assert(linked(rest, a, y));
        }
    } else if linked(rest, a, x) && linked(rest, y, b) {
        if linked(rest, b, c) {
            assert(linked(rest, y, c));
        } else if linked(rest, b, x) && linked(rest, y, c) {
            assert(linked(rest, y, x));
            assert(linked(rest, a, y));
            assert(linked(rest, a, c));
        } else {
            assert(linked(rest, b, y) && linked(rest, x, c));
        }
    } else {
        assert(linked(rest, a, y) && linked(rest, x, b));
        if linked(rest, b, c) {
            assert(linked(rest, x, c));
        } else if linked(rest, b, x) && linked(rest, y, c) {
        } else {
            assert(linked(rest, b, y) && linked(rest, x, c));
            assert(linked(rest, x, y));
            assert(linked(rest, a, x));
            assert(linked(rest, a, c));
        }
    }
}

/// The relation of `rest` with the classes of `x` and `y` joined.
pub open spec fn joined(rest: Seq<EqualityConstraint>, x: Cell, y: Cell, a: Cell, b: Cell) -> bool {
    ||| linked(rest, a, b)
    ||| linked(rest, a, x) && linked(rest, y, b)
    ||| linked(rest, a, y) && linked(rest, x, b)
}

/// Unfolds `linked` by its last constraint.
pub proof fn lemma_linked_unfold(constraints: Seq<EqualityConstraint>, a: Cell, b: Cell)
    requires
        constraints.len() > 0,
    ensures
        linked(constraints, a, b) == joined(
            constraints.drop_last(),
            constraints.last().left,
            constraints.last().right,
            a,
            b,
        ),
{
}

/// The two cells of every constraint are linked.
pub proof fn lemma_constraint_links(constraints: Seq<EqualityConstraint>, i: int)
    requires
        0 <= i < constraints.len(),
    ensures
        linked(constraints, constraints[i].left, constraints[i].right),
    decreases constraints.len(),
{
    let rest = constraints.drop_last();
    lemma_linked_is_equivalence(rest);
    if i < constraints.len() - 1 {
        lemma_constraint_links(rest, i);
        assert(rest[i] == constraints[i]);
    } else {
        assert(linked(rest, constraints[i].left, constraints[i].left));
        assert(linked(rest, constraints[i].right, constraints[i].right));
    }
}

/// Cells linked by some of the constraints are linked by all of them.
pub proof fn lemma_linked_grows(
    constraints: Seq<EqualityConstraint>,
    more: Seq<EqualityConstraint>,
    a: Cell,
    b: Cell,
)
    requires
        linked(constraints, a, b),
    ensures
        linked(constraints + more, a, b),
    decreases more.len(),
{
    if more.len() == 0 {
        assert(constraints + more =~= constraints);
    } else {
        lemma_linked_grows(constraints, more.drop_last(), a, b);
        assert((constraints + more).drop_last() =~= constraints + more.drop_last());
    }
}

/// The cells that the constraints mention, in the order in which they are
/// mentioned: for each constraint its left cell, then its right one.
pub open spec fn endpoints(constraints: Seq<EqualityConstraint>) -> Seq<Cell>
    decreases constraints.len(),
{
    if constraints.len() == 0 {
        Seq::empty()
    } else {
        endpoints(constraints.drop_last()).push(constraints.last().left).push(
            constraints.last().right,
        )
    }
}

/// Where the cells of constraint `k` stand among the endpoints.
pub proof fn lemma_endpoints_index(constraints: Seq<EqualityConstraint>, k: int)
    requires
        0 <= k < constraints.len(),
    ensures
        endpoints(constraints).len() == 2 * constraints.len(),
        endpoints(constraints)[2 * k] == constraints[k].left,
        endpoints(constraints)[2 * k + 1] == constraints[k].right,
    decreases constraints.len(),
{
    lemma_endpoints_len(constraints.drop_last());
    if k < constraints.len() - 1 {
        lemma_endpoints_index(constraints.drop_last(), k);
    }
}

/// There are two endpoints for each constraint.
pub proof fn lemma_endpoints_len(constraints: Seq<EqualityConstraint>)
    ensures
        endpoints(constraints).len() == 2 * constraints.len(),
    decreases constraints.len(),
{
    if constraints.len() > 0 {
        lemma_endpoints_len(constraints.drop_last());
    }
}

/// Whether position `p` is the first among the cells that stands in its
/// equivalence class.
pub open spec fn leads(constraints: Seq<EqualityConstraint>, cells: Seq<Cell>, p: int) -> bool {
    forall|q: int| 0 <= q < p ==> !linked(constraints, #[trigger] cells[q], cells[p])
}

/// The equivalence class of `anchor` among the first `n` cells: each cell
/// linked to `anchor` once, in the order of its first occurrence.
pub open spec fn class_of(
    constraints: Seq<EqualityConstraint>,
    cells: Seq<Cell>,
    anchor: Cell,
    n: nat,
) -> Seq<Cell>
    decreases n,
{
    if n == 0 {
        Seq::empty()
    } else {
        let rest = class_of(constraints, cells, anchor, (n - 1) as nat);
        let c = cells[n - 1];
        if linked(constraints, anchor, c) && !rest.contains(c) {
            rest.push(c)
        } else {
            rest
        }
    }
}

/// Whether `labels` gives each of the cells the first position of its
/// equivalence class.
pub open spec fn labels_ok(
    constraints: Seq<EqualityConstraint>,
    cells: Seq<Cell>,
    labels: Seq<usize>,
) -> bool {
    &&& labels.len() == cells.len()
    &&& forall|q: int|
        0 <= q < cells.len() ==> (#[trigger] labels[q]) <= q && labels[labels[q] as int]
            == labels[q]
    &&& forall|p: int, q: int|
        0 <= p < cells.len() && 0 <= q < cells.len() ==> (linked(
            constraints,
            #[trigger] cells[p],
            #[trigger] cells[q],
        ) <==> labels[p] == labels[q])
}

/// With the right labels, a position leads its class exactly when it is
/// its own label.
pub proof fn lemma_leader_is_own_label(
    constraints: Seq<EqualityConstraint>,
    cells: Seq<Cell>,
    labels: Seq<usize>,
    p: int,
)
    requires
        labels_ok(constraints, cells, labels),
        0 <= p < cells.len(),
    ensures
        leads(constraints, cells, p) <==> labels[p] == p,
{
    if labels[p] != p {
        let l = labels[p] as int;
        assert(labels[l] == labels[p]);
        assert(linked(constraints, cells[l], cells[p]));
    } else {
        assert forall|q: int| 0 <= q < p implies !linked(
            constraints,
            #[trigger] cells[q],
            cells[p],
        ) by {
            assert(labels[q] <= q);
        }
    }
}

/// Whether the list holds the cell.
pub fn holds(cells: &Vec<Cell>, cell: Cell) -> (r: bool)
    ensures
        r == cells@.contains(cell),
{
    let mut i: usize = 0;
    while i < cells.len()
        invariant
            i <= cells.len(),
            forall|k: int| 0 <= k < i ==> cells@[k] != cell,
        decreases cells.len() - i,
    {
        if cells[i] == cell {
            return true;
        }
        i += 1;
    }
    false
}

/// Lists the cells that the constraints mention, left before right.
pub fn list_endpoints(constraints: &Vec<EqualityConstraint>) -> (cells: Vec<Cell>)
    ensures
        cells@ == endpoints(constraints@),
{
    let mut cells: Vec<Cell> = Vec::new();
    let mut k: usize = 0;
    while k < constraints.len()
        invariant
            k <= constraints.len(),
            cells@ == endpoints(constraints@.take(k as int)),
        decreases constraints.len() - k,
    {
        proof {
            assert(constraints@.take(k + 1).drop_last() =~= constraints@.take(k as int));
        }
        cells.push(constraints[k].left);
        cells.push(constraints[k].right);
        k += 1;
    }
    proof {
        assert(constraints@.take(constraints@.len() as int) =~= constraints@);
    }
    cells
}

/// Labels each endpoint with the first position of its equivalence class.
pub fn label_classes(constraints: &Vec<EqualityConstraint>, cells: &Vec<Cell>) -> (labels: Vec<
    usize,
>)
    requires
        cells@ == endpoints(constraints@),
    ensures
        labels_ok(constraints@, cells@, labels@),
{
    let n = cells.len();
    let mut labels: Vec<usize> = Vec::new();
    let mut q: usize = 0;
    while q < n
        invariant
            q <= n == cells.len(),
            labels@.len() == q,
            forall|i: int| 0 <= i < q ==> (#[trigger] labels@[i]) <= i && cells@[labels@[i] as int]
                == cells@[i],
            forall|i: int, j: int| 0 <= i < q && 0 <= j < labels@[i] ==> cells@[j] != cells@[i],
        decreases n - q,
    {
        let mut p: usize = 0;
        while p < q && cells[p] != cells[q]
            invariant
                p <= q < n == cells.len(),
                forall|j: int| 0 <= j < p ==> cells@[j] != cells@[q as int],
            decreases q - p,
        {
            p += 1;
        }
        labels.push(p);
        q += 1;
    }
    proof {
        assert forall|p: int, q: int| 0 <= p < n && 0 <= q < n implies (linked(
            constraints@.take(0),
            #[trigger] cells@[p],
            #[trigger] cells@[q],
        ) <==> labels@[p] == labels@[q]) by {
            let lp = labels@[p] as int;
            let lq = labels@[q] as int;
            if cells@[p] == cells@[q] {
                if lp < lq {
                    assert(cells@[lp] != cells@[q]);
                }
                if lq < lp {
                    assert(cells@[lq] != cells@[p]);
                }
            }
        }
        assert forall|i: int| 0 <= i < n implies labels@[labels@[i] as int] == #[trigger] labels@[i] by {
            let l = labels@[i] as int;
            let ll = labels@[l] as int;
            if ll < l {
                assert(cells@[ll] != cells@[i]);
            }
        }
    }
    let mut k: usize = 0;
    while k < constraints.len()
        invariant
            k <= constraints.len(),
            n == cells.len(),
            cells@ == endpoints(constraints@),
            labels_ok(constraints@.take(k as int), cells@, labels@),
        decreases constraints.len() - k,
    {
        proof {
            lemma_endpoints_index(constraints@, k as int);
            assert(constraints@.take(k + 1).drop_last() =~= constraints@.take(k as int));
        }
        let a = labels[2 * k];
        let b = labels[2 * k + 1];
        if a != b {
            let lo = if a < b { a } else { b };
            let hi = if a < b { b } else { a };
            let ghost before = labels@;
            let mut q: usize = 0;
            while q < n
                invariant
                    q <= n == cells.len() == labels@.len() == before.len(),
                    forall|i: int| 0 <= i < q ==> #[trigger] labels@[i] == relabel(before[i], lo, hi),
                    forall|i: int| q <= i < n ==> #[trigger] labels@[i] == before[i],
                decreases n - q,
            {
                if labels[q] == hi {
                    labels[q] = lo;
                }
                q += 1;
            }
            proof {
                lemma_join_labels(constraints@.take(k + 1), cells@, before, labels@, k as int);
            }
        } else {
            proof {
                lemma_join_labels(constraints@.take(k + 1), cells@, labels@, labels@, k as int);
            }
        }
        k += 1;
    }
    proof {
        assert(constraints@.take(constraints@.len() as int) =~= constraints@);
    }
    labels
}

/// The label after the class labelled `hi` has been merged into the one
/// labelled `lo`.
pub open spec fn relabel(label: usize, lo: usize, hi: usize) -> usize {
    if label == hi {
        lo
    } else {
        label
    }
}

/// Merging the classes of the two cells of the last constraint, under the
/// smaller of their labels, gives the right labels for all constraints.
proof fn lemma_join_labels(
    constraints: Seq<EqualityConstraint>,
    cells: Seq<Cell>,
    before: Seq<usize>,
    after: Seq<usize>,
    k: int,
)
    requires
        k == constraints.len() - 1,
        0 <= k,
        2 * k + 1 < cells.len(),
        cells[2 * k] == constraints.last().left,
        cells[2 * k + 1] == constraints.last().right,
        labels_ok(constraints.drop_last(), cells, before),
        after.len() == before.len(),
        forall|i: int|
            0 <= i < before.len() ==> #[trigger] after[i] == relabel(
                before[i],
                if before[2 * k] < before[2 * k + 1] {
                    before[2 * k]
                } else {
                    before[2 * k + 1]
                },
                if before[2 * k] < before[2 * k + 1] {
                    before[2 * k + 1]
                } else {
                    before[2 * k]
                },
            ),
    ensures
        labels_ok(constraints, cells, after),
{
    let rest = constraints.drop_last();
    let x = cells[2 * k];
    let y = cells[2 * k + 1];
    let a = before[2 * k];
    let b = before[2 * k + 1];
    let lo = if a < b { a } else { b };
    let hi = if a < b { b } else { a };
    assert(before[a as int] == a);
    assert(before[b as int] == b);
    assert forall|q: int| 0 <= q < cells.len() implies (#[trigger] after[q]) <= q && after[after[q] as int]
        == after[q] by {
        assert(before[q] <= q);
        assert(before[before[q] as int] == before[q]);
        assert(after[lo as int] == relabel(before[lo as int], lo, hi));
        assert(after[before[q] as int] == relabel(before[before[q] as int], lo, hi));
    }
    assert forall|p: int, q: int| 0 <= p < cells.len() && 0 <= q < cells.len() implies (linked(
        constraints,
        #[trigger] cells[p],
        #[trigger] cells[q],
    ) <==> after[p] == after[q]) by {
        lemma_linked_unfold(constraints, cells[p], cells[q]);
        assert(linked(rest, cells[p], cells[q]) <==> before[p] == before[q]);
        assert(linked(rest, cells[p], x) <==> before[p] == a);
        assert(linked(rest, y, cells[q]) <==> b == before[q]);
        assert(linked(rest, cells[p], y) <==> before[p] == b);
        assert(linked(rest, x, cells[q]) <==> a == before[q]);
    }
}

} // verus!
