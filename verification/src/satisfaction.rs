//! What it means for a matrix to satisfy a circuit, said without reference
//! to the order in which the checker works, and the proof that the checker
//! finds nothing exactly when the matrix satisfies the circuit.
use crate::assignment::Matrix;
use crate::checker::{
    class_findings, class_part, concat_upto, disagree, equality_findings, findings, gate_findings,
    gate_part, gates_findings, input_values, lemma_concat_is_nothing, lemma_concat_of_nothing,
    lookup_findings, lookup_findings_at, lookup_part, lookup_row_part, lookups_findings,
    missing_part, poly_findings, poly_part, row_findings, row_part, table_columns, Finding,
};
use crate::column::Cell;
use crate::constraint_system::{GateView, LookupView, Shape};
use crate::equality::{
    class_of, endpoints, leads, lemma_constraint_links, lemma_endpoints_index,
    lemma_endpoints_len, lemma_linked_is_equivalence, lemma_linked_unfold, linked,
    EqualityConstraint,
};
use crate::expression::{eval, Query};
use crate::table::has_row;
use vstd::prelude::*;

verus! {

/// Whether every polynomial of a gate vanishes at the row, should the
/// selector of that gate be on there.
pub open spec fn gate_holds(gate: GateView, m: Matrix, row: usize) -> bool {
    m.enabled.contains((gate.selector.index, row)) ==> forall|k: int|
        0 <= k < gate.polys.len() ==> eval(#[trigger] gate.polys[k], m, row) == Ok::<nat, Query>(
            0,
        )
}

/// Whether the inputs of a lookup evaluate at the row to a row of its
/// table columns, should the selector of that lookup be on there.
pub open spec fn lookup_holds(
    lookup: LookupView,
    m: Matrix,
    tables: Seq<Option<Seq<nat>>>,
    row: usize,
) -> bool {
    m.enabled.contains((lookup.selector.index, row)) ==> {
        &&& input_values(lookup.inputs, m, row) is Ok
        &&& has_row(tables, table_columns(lookup.inputs), input_values(lookup.inputs, m, row)->Ok_0)
    }
}

/// Whether the two cells of the constraint carry a value, and the same one.
pub open spec fn constraint_holds(constraint: EqualityConstraint, m: Matrix) -> bool {
    m.value(constraint.left) is Some && m.value(constraint.left) == m.value(constraint.right)
}

/// Whether the matrix satisfies the circuit: every gate and every lookup
/// holds at every used row, and every equality constraint holds.
pub open spec fn satisfied(
    shape: Shape,
    m: Matrix,
    constraints: Seq<EqualityConstraint>,
    tables: Seq<Option<Seq<nat>>>,
) -> bool {
    &&& forall|g: int, row: usize|
        0 <= g < shape.gates.len() && row < m.rows ==> #[trigger] gate_holds(
            shape.gates[g],
            m,
            row,
        )
    &&& forall|l: int, row: usize|
        0 <= l < shape.lookups.len() && row < m.rows ==> #[trigger] lookup_holds(
            shape.lookups[l],
            m,
            tables,
            row,
        )
    &&& forall|i: int|
        0 <= i < constraints.len() ==> constraint_holds(#[trigger] constraints[i], m)
}

/// Whatever is linked to the anchor among the first `n` cells is in the
/// anchor's class.
pub proof fn lemma_class_holds_linked_cells(
    constraints: Seq<EqualityConstraint>,
    cells: Seq<Cell>,
    anchor: Cell,
    n: nat,
    q: int,
)
    requires
        0 <= q < n <= cells.len(),
        linked(constraints, anchor, cells[q]),
    ensures
        class_of(constraints, cells, anchor, n).contains(cells[q]),
    decreases n,
{
    let rest = class_of(constraints, cells, anchor, (n - 1) as nat);
    let class = class_of(constraints, cells, anchor, n);
    if q < n - 1 {
        lemma_class_holds_linked_cells(constraints, cells, anchor, (n - 1) as nat, q);
        let at = choose|at: int| 0 <= at < rest.len() && rest[at] == cells[q];
        assert(class[at] == cells[q]);
    } else if rest.contains(cells[q]) {
    } else {
        assert(class[rest.len() as int] == cells[q]);
    }
}

/// The first position from `from` on whose cell is linked to `cell`.
pub open spec fn first_linked(
    constraints: Seq<EqualityConstraint>,
    cells: Seq<Cell>,
    cell: Cell,
    from: int,
) -> int
    decreases cells.len() - from,
{
    if from >= cells.len() || linked(constraints, cells[from], cell) {
        from
    } else {
        first_linked(constraints, cells, cell, from + 1)
    }
}

/// The first position whose cell is linked to the cell at `q` comes no
/// later than `q`, and nothing before it is linked to that cell.
proof fn lemma_first_linked(
    constraints: Seq<EqualityConstraint>,
    cells: Seq<Cell>,
    q: int,
    from: int,
)
    requires
        0 <= from <= q < cells.len(),
        forall|p: int| 0 <= p < from ==> !linked(constraints, #[trigger] cells[p], cells[q]),
    ensures
        from <= first_linked(constraints, cells, cells[q], from) <= q,
        linked(
            constraints,
            cells[first_linked(constraints, cells, cells[q], from)],
            cells[q],
        ),
        forall|p: int|
            0 <= p < first_linked(constraints, cells, cells[q], from) ==> !linked(
                constraints,
                #[trigger] cells[p],
                cells[q],
            ),
    decreases cells.len() - from,
{
    lemma_linked_is_equivalence(constraints);
    if !linked(constraints, cells[from], cells[q]) {
        lemma_first_linked(constraints, cells, q, from + 1);
    }
}

/// When the equality constraints yield no finding, any two of the cells
/// they mention that are linked carry a value, and the same one.
pub proof fn lemma_linked_cells_agree(
    constraints: Seq<EqualityConstraint>,
    m: Matrix,
    i: int,
    j: int,
)
    requires
        equality_findings(constraints, m).len() == 0,
        0 <= i < endpoints(constraints).len(),
        0 <= j < endpoints(constraints).len(),
        linked(constraints, endpoints(constraints)[i], endpoints(constraints)[j]),
    ensures
        m.value(endpoints(constraints)[i]) is Some,
        m.value(endpoints(constraints)[i]) == m.value(endpoints(constraints)[j]),
{
    let cells = endpoints(constraints);
    let n = cells.len();
    lemma_linked_is_equivalence(constraints);
    lemma_first_linked(constraints, cells, i, 0);
    let p = first_linked(constraints, cells, cells[i], 0);
    assert(leads(constraints, cells, p)) by {
        assert forall|q: int| 0 <= q < p implies !linked(
            constraints,
            #[trigger] cells[q],
            cells[p],
        ) by {
            if linked(constraints, cells[q], cells[p]) {
                assert(linked(constraints, cells[q], cells[i]));
            }
        }
    }
    let class = class_of(constraints, cells, cells[p], n);
    lemma_concat_is_nothing(n, class_part(constraints, m), p);
    assert(class_part(constraints, m)(p) == class_findings(class, m));
    assert(linked(constraints, cells[p], cells[j]));
    lemma_class_holds_linked_cells(constraints, cells, cells[p], n, i);
    lemma_class_holds_linked_cells(constraints, cells, cells[p], n, j);
    let ki = choose|k: int| 0 <= k < class.len() && class[k] == cells[i];
    let kj = choose|k: int| 0 <= k < class.len() && class[k] == cells[j];
    assert(concat_upto(class.len(), missing_part(class, m)).len() == 0);
    assert(!disagree(class, m));
    lemma_concat_is_nothing(class.len(), missing_part(class, m), ki);
    lemma_concat_is_nothing(class.len(), missing_part(class, m), kj);
    assert(missing_part(class, m)(ki).len() == 0);
    assert(missing_part(class, m)(kj).len() == 0);
    assert(m.value(class[ki]) is Some);
    assert(m.value(class[kj]) is Some);
}

/// Equality is transitive for the checker: when one constraint ties X to Y
/// and another ties Y to Z, and the equality constraints yield no finding,
/// then X and Z carry a value, and the same one, though no constraint
/// names the two together.
pub proof fn lemma_chained_constraints_agree(
    constraints: Seq<EqualityConstraint>,
    m: Matrix,
    i: int,
    j: int,
)
    requires
        0 <= i < constraints.len(),
        0 <= j < constraints.len(),
        constraints[i].right == constraints[j].left,
        equality_findings(constraints, m).len() == 0,
    ensures
        linked(constraints, constraints[i].left, constraints[j].right),
        m.value(constraints[i].left) is Some,
        m.value(constraints[i].left) == m.value(constraints[j].right),
{
    lemma_linked_is_equivalence(constraints);
    lemma_constraint_links(constraints, i);
    lemma_constraint_links(constraints, j);
    lemma_endpoints_index(constraints, i);
    lemma_endpoints_index(constraints, j);
    lemma_linked_cells_agree(constraints, m, 2 * i, 2 * j + 1);
}

/// A gate yields nothing at a row exactly when it holds there.
pub proof fn lemma_gate_findings_mean_failure(gate: GateView, m: Matrix, row: usize)
    ensures
        gate_findings(gate, m, row).len() == 0 <==> gate_holds(gate, m, row),
{
    let part = poly_part(gate, m, row);
    if m.enabled.contains((gate.selector.index, row)) {
        if gate_findings(gate, m, row).len() == 0 {
            assert forall|k: int| 0 <= k < gate.polys.len() implies eval(
                #[trigger] gate.polys[k],
                m,
                row,
            ) == Ok::<nat, Query>(0) by {
                lemma_concat_is_nothing(gate.polys.len(), part, k);
                assert(part(k) == poly_findings(gate.name, gate.polys[k], m, row));
            }
        }
        if gate_holds(gate, m, row) {
            assert forall|k: int| 0 <= k < gate.polys.len() implies (#[trigger] part(k)).len()
                == 0 by {
                assert(eval(gate.polys[k], m, row) == Ok::<nat, Query>(0));
            }
            lemma_concat_of_nothing(gate.polys.len(), part);
        }
    }
}

/// A lookup yields nothing at a row exactly when it holds there.
pub proof fn lemma_lookup_findings_mean_failure(
    lookup: LookupView,
    m: Matrix,
    tables: Seq<Option<Seq<nat>>>,
    row: usize,
)
    ensures
        lookup_findings_at(lookup, m, tables, row).len() == 0 <==> lookup_holds(
            lookup,
            m,
            tables,
            row,
        ),
{
}

/// When every constraint holds, cells that the constraints link carry the
/// same value, or both none.
pub proof fn lemma_linked_cells_agree_pairwise(
    constraints: Seq<EqualityConstraint>,
    m: Matrix,
    a: Cell,
    b: Cell,
)
    requires
        forall|i: int|
            0 <= i < constraints.len() ==> constraint_holds(#[trigger] constraints[i], m),
        linked(constraints, a, b),
    ensures
        m.value(a) == m.value(b),
    decreases constraints.len(),
{
    if constraints.len() > 0 {
        let rest = constraints.drop_last();
        let last = constraints.last();
        lemma_linked_unfold(constraints, a, b);
        assert(constraint_holds(constraints[constraints.len() - 1], m));
        assert forall|i: int| 0 <= i < rest.len() implies constraint_holds(
            #[trigger] rest[i],
            m,
        ) by {
            assert(rest[i] == constraints[i]);
        }
        if linked(rest, a, b) {
            lemma_linked_cells_agree_pairwise(rest, m, a, b);
        } else if linked(rest, a, last.left) && linked(rest, last.right, b) {
            lemma_linked_cells_agree_pairwise(rest, m, a, last.left);
            lemma_linked_cells_agree_pairwise(rest, m, last.right, b);
        } else {
            lemma_linked_cells_agree_pairwise(rest, m, a, last.right);
            lemma_linked_cells_agree_pairwise(rest, m, last.left, b);
        }
    }
}

/// Every cell of a class is linked to the anchor of the class and stands
/// among the cells that the class was gathered from.
pub proof fn lemma_class_members(
    constraints: Seq<EqualityConstraint>,
    cells: Seq<Cell>,
    anchor: Cell,
    n: nat,
    k: int,
)
    requires
        n <= cells.len(),
        0 <= k < class_of(constraints, cells, anchor, n).len(),
    ensures
        linked(constraints, anchor, class_of(constraints, cells, anchor, n)[k]),
        cells.contains(class_of(constraints, cells, anchor, n)[k]),
    decreases n,
{
    let rest = class_of(constraints, cells, anchor, (n - 1) as nat);
    if k < rest.len() {
        lemma_class_members(constraints, cells, anchor, (n - 1) as nat, k);
    } else {
        assert(cells[n - 1] == class_of(constraints, cells, anchor, n)[k]);
    }
}

/// Every endpoint is a cell of one of the constraints.
pub proof fn lemma_endpoints_are_constrained(constraints: Seq<EqualityConstraint>, p: int) -> (i:
    int)
    requires
        0 <= p < endpoints(constraints).len(),
    ensures
        0 <= i < constraints.len(),
        endpoints(constraints)[p] == constraints[i].left || endpoints(constraints)[p]
            == constraints[i].right,
{
    lemma_endpoints_len(constraints);
    let i = p / 2;
    lemma_endpoints_index(constraints, i);
    i
}

/// The equality constraints yield nothing exactly when each of them holds.
pub proof fn lemma_equality_findings_mean_failure(
    constraints: Seq<EqualityConstraint>,
    m: Matrix,
)
    ensures
        equality_findings(constraints, m).len() == 0 <==> forall|i: int|
            0 <= i < constraints.len() ==> constraint_holds(#[trigger] constraints[i], m),
{
    let cells = endpoints(constraints);
    let n = cells.len();
    lemma_endpoints_len(constraints);
    if equality_findings(constraints, m).len() == 0 {
        assert forall|i: int| 0 <= i < constraints.len() implies constraint_holds(
            #[trigger] constraints[i],
            m,
        ) by {
            lemma_endpoints_index(constraints, i);
            lemma_constraint_links(constraints, i);
            lemma_linked_cells_agree(constraints, m, 2 * i, 2 * i + 1);
        }
    }
    if forall|i: int| 0 <= i < constraints.len() ==> constraint_holds(#[trigger] constraints[i], m) {
        assert forall|p: int| 0 <= p < n implies (#[trigger] class_part(constraints, m)(p)).len()
            == 0 by {
            if leads(constraints, cells, p) {
                let class = class_of(constraints, cells, cells[p], n);
                assert forall|k: int| 0 <= k < class.len() implies m.value(
                    #[trigger] class[k],
                ) is Some && m.value(class[k]) == m.value(cells[p]) by {
                    lemma_class_members(constraints, cells, cells[p], n, k);
                    lemma_linked_cells_agree_pairwise(constraints, m, cells[p], class[k]);
                    let i = lemma_endpoints_are_constrained(constraints, p);
                    assert(constraint_holds(constraints[i], m));
                }
                assert forall|k: int| 0 <= k < class.len() implies (#[trigger] missing_part(
                    class,
                    m,
                )(k)).len() == 0 by {
                    assert(m.value(class[k]) is Some);
                }
                lemma_concat_of_nothing(class.len(), missing_part(class, m));
                assert(!disagree(class, m));
                assert(class_findings(class, m).len() == 0);
            }
        }
        lemma_concat_of_nothing(n, class_part(constraints, m));
    }
}

/// The checker finds nothing exactly when the matrix satisfies the
/// circuit.
pub proof fn lemma_nothing_found_means_satisfied(
    shape: Shape,
    m: Matrix,
    constraints: Seq<EqualityConstraint>,
    tables: Seq<Option<Seq<nat>>>,
)
    ensures
        findings(shape, m, constraints, tables).len() == 0 <==> satisfied(
            shape,
            m,
            constraints,
            tables,
        ),
{
    let gates = shape.gates;
    let lookups = shape.lookups;
    let rows = m.rows as nat;
    lemma_equality_findings_mean_failure(constraints, m);
    if findings(shape, m, constraints, tables).len() == 0 {
        assert(gates_findings(gates, m).len() == 0);
        assert(lookups_findings(lookups, m, tables).len() == 0);
        assert(equality_findings(constraints, m).len() == 0);
        assert forall|g: int, row: usize| 0 <= g < gates.len() && row < m.rows implies #[trigger] gate_holds(
            gates[g],
            m,
            row,
        ) by {
            lemma_concat_is_nothing(rows, row_part(gates, m), row as int);
            assert(row_part(gates, m)(row as int) == row_findings(gates, m, row));
            lemma_concat_is_nothing(gates.len(), gate_part(gates, m, row), g);
            assert(gate_part(gates, m, row)(g) == gate_findings(gates[g], m, row));
            lemma_gate_findings_mean_failure(gates[g], m, row);
        }
        assert forall|l: int, row: usize|
            0 <= l < lookups.len() && row < m.rows implies #[trigger] lookup_holds(
            lookups[l],
            m,
            tables,
            row,
        ) by {
            lemma_concat_is_nothing(lookups.len(), lookup_part(lookups, m, tables), l);
            assert(lookup_part(lookups, m, tables)(l) == lookup_findings(lookups[l], m, tables));
            lemma_concat_is_nothing(rows, lookup_row_part(lookups[l], m, tables), row as int);
            assert(lookup_row_part(lookups[l], m, tables)(row as int) == lookup_findings_at(
                lookups[l],
                m,
                tables,
                row,
            ));
            lemma_lookup_findings_mean_failure(lookups[l], m, tables, row);
        }
    }
    if satisfied(shape, m, constraints, tables) {
        assert forall|r: int| 0 <= r < rows implies (#[trigger] row_part(gates, m)(r)).len()
            == 0 by {
            let row = r as usize;
            assert forall|g: int| 0 <= g < gates.len() implies (#[trigger] gate_part(
                gates,
                m,
                row,
            )(g)).len() == 0 by {
                assert(gate_holds(gates[g], m, row));
                lemma_gate_findings_mean_failure(gates[g], m, row);
            }
            lemma_concat_of_nothing(gates.len(), gate_part(gates, m, row));
        }
        lemma_concat_of_nothing(rows, row_part(gates, m));
        assert forall|l: int| 0 <= l < lookups.len() implies (#[trigger] lookup_part(
            lookups,
            m,
            tables,
        )(l)).len() == 0 by {
            assert forall|r: int| 0 <= r < rows implies (#[trigger] lookup_row_part(
                lookups[l],
                m,
                tables,
            )(r)).len() == 0 by {
                let row = r as usize;
                assert(lookup_holds(lookups[l], m, tables, row));
                lemma_lookup_findings_mean_failure(lookups[l], m, tables, row);
            }
            lemma_concat_of_nothing(rows, lookup_row_part(lookups[l], m, tables));
        }
        lemma_concat_of_nothing(lookups.len(), lookup_part(lookups, m, tables));
        assert(findings(shape, m, constraints, tables) =~= Seq::<Finding>::empty());
    }
}

} // verus!
