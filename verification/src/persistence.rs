//! What holds of a matrix keeps holding as the matrix is extended: regions
//! are laid on fresh rows and cannot break what earlier regions satisfy.
use crate::assignment::Matrix;
use crate::checker::{
    gate_findings, gate_part, input_values, lemma_concat_is_nothing, lemma_concat_of_nothing,
    lookup_findings_at, poly_findings, poly_part, row_findings, table_columns, Finding,
};
use crate::column::{Cell, Column, ColumnKind};
use crate::constraint_system::{GateView, LookupInput, LookupView};
use crate::equality::EqualityConstraint;
use crate::expression::{eval, Expression, Query};
use crate::layouter::{lemma_commit_extends, Staged, Synthesis};
use crate::satisfaction::{
    constraint_holds, gate_holds, lemma_lookup_findings_mean_failure, lookup_holds, satisfied,
};
use crate::table::{content, has_row, row_matches};
use vstd::prelude::*;

verus! {

/// What a cell carries, it carries in every extension of the matrix.
pub proof fn lemma_value_persists(before: Matrix, after: Matrix, cell: Cell)
    requires
        before.extended_by(after),
        before.value(cell) is Some,
    ensures
        after.value(cell) == before.value(cell),
{
    if cell.column.kind != ColumnKind::Instance {
        assert(before.cells.contains_key(cell));
        assert(before.cells.dom().contains(cell));
    }
}

/// An expression that evaluates in a matrix evaluates to the same value in
/// every extension of the matrix.
pub proof fn lemma_eval_persists(e: Expression, before: Matrix, after: Matrix, row: usize)
    requires
        before.extended_by(after),
        eval(e, before, row) is Ok,
    ensures
        eval(e, after, row) == eval(e, before, row),
    decreases e,
{
    match e {
        Expression::Constant(_) => {},
        Expression::Query(q) => {
            lemma_value_persists(
                before,
                after,
                Cell { column: q.column, row: (row + q.rotation) as usize },
            );
        },
        Expression::Sum(a, b) => {
            lemma_eval_persists(*a, before, after, row);
            lemma_eval_persists(*b, before, after, row);
        },
        Expression::Difference(a, b) => {
            lemma_eval_persists(*a, before, after, row);
            lemma_eval_persists(*b, before, after, row);
        },
        Expression::Product(a, b) => {
            lemma_eval_persists(*a, before, after, row);
            lemma_eval_persists(*b, before, after, row);
        },
    }
}

/// A used row on which no gate has a finding stays so in every extension
/// of the matrix: later regions cannot break what earlier ones satisfy.
pub proof fn lemma_clean_row_persists(
    gates: Seq<GateView>,
    before: Matrix,
    after: Matrix,
    row: usize,
)
    requires
        before.wf(),
        before.extended_by(after),
        row < before.rows,
        row_findings(gates, before, row).len() == 0,
    ensures
        row_findings(gates, after, row) == Seq::<Finding>::empty(),
{
    assert forall|g: int| 0 <= g < gates.len() implies (#[trigger] gate_part(gates, after, row)(
        g,
    )).len() == 0 by {
        lemma_concat_is_nothing(gates.len(), gate_part(gates, before, row), g);
        let gate = gates[g];
        assert(gate_findings(gate, before, row).len() == 0);
        if after.enabled.contains((gate.selector.index, row)) {
            assert(before.enabled.contains((gate.selector.index, row)));
            assert forall|k: int| 0 <= k < gate.polys.len() implies (#[trigger] poly_part(
                gate,
                after,
                row,
            )(k)).len() == 0 by {
                lemma_concat_is_nothing(gate.polys.len(), poly_part(gate, before, row), k);
                assert(poly_findings(gate.name, gate.polys[k], before, row).len() == 0);
                lemma_eval_persists(gate.polys[k], before, after, row);
            }
            lemma_concat_of_nothing(gate.polys.len(), poly_part(gate, after, row));
        }
    }
    lemma_concat_of_nothing(gates.len(), gate_part(gates, after, row));
}

/// The values of the inputs of a lookup, once they all evaluate, are the
/// same in every extension of the matrix.
pub proof fn lemma_input_values_persist(
    inputs: Seq<LookupInput>,
    before: Matrix,
    after: Matrix,
    row: usize,
)
    requires
        before.extended_by(after),
        input_values(inputs, before, row) is Ok,
    ensures
        input_values(inputs, after, row) == input_values(inputs, before, row),
    decreases inputs.len(),
{
    if inputs.len() > 0 {
        lemma_input_values_persist(inputs.drop_last(), before, after, row);
        lemma_eval_persists(inputs.last().input, before, after, row);
    }
}

/// What a lookup yields at a used row where its inputs evaluate stays the
/// same when the matrix is extended and the contents of its table columns
/// stay as they are: a lookup that failed keeps failing, and one that held
/// keeps holding.
pub proof fn lemma_lookup_row_persists(
    lookup: LookupView,
    before: Matrix,
    after: Matrix,
    tables: Seq<Option<Seq<nat>>>,
    later: Seq<Option<Seq<nat>>>,
    row: usize,
)
    requires
        before.wf(),
        before.extended_by(after),
        row < before.rows,
        input_values(lookup.inputs, before, row) is Ok,
        forall|k: int|
            0 <= k < lookup.inputs.len() ==> content(later, (#[trigger] lookup.inputs[k]).table)
                == content(tables, lookup.inputs[k].table),
    ensures
        lookup_findings_at(lookup, after, later, row) == lookup_findings_at(
            lookup,
            before,
            tables,
            row,
        ),
{
    lemma_input_values_persist(lookup.inputs, before, after, row);
    let columns = table_columns(lookup.inputs);
    let tuple = input_values(lookup.inputs, before, row)->Ok_0;
    if after.enabled.contains((lookup.selector.index, row)) {
        assert(before.enabled.contains((lookup.selector.index, row)));
    }
    assert forall|r: int| 0 <= r implies row_matches(later, columns, tuple, r) == row_matches(
        tables,
        columns,
        tuple,
        r,
    ) by {
        assert forall|k: int| 0 <= k < columns.len() implies content(later, #[trigger] columns[k])
            == content(tables, columns[k]) by {
            assert(columns[k] == lookup.inputs[k].table);
        }
    }
    if has_row(tables, columns, tuple) {
        let r = choose|r: int| 0 <= r && #[trigger] row_matches(tables, columns, tuple, r);
        assert(row_matches(later, columns, tuple, r));
    }
    if has_row(later, columns, tuple) {
        let r = choose|r: int| 0 <= r && #[trigger] row_matches(later, columns, tuple, r);
        assert(row_matches(tables, columns, tuple, r));
    }
}

/// A gate that holds at a used row holds there in every extension of the
/// matrix.
pub proof fn lemma_gate_holds_on(gate: GateView, before: Matrix, after: Matrix, row: usize)
    requires
        before.wf(),
        before.extended_by(after),
        row < before.rows,
        gate_holds(gate, before, row),
    ensures
        gate_holds(gate, after, row),
{
    if after.enabled.contains((gate.selector.index, row)) {
        assert(before.enabled.contains((gate.selector.index, row)));
        assert forall|k: int| 0 <= k < gate.polys.len() implies eval(
            #[trigger] gate.polys[k],
            after,
            row,
        ) == Ok::<nat, Query>(0) by {
            lemma_eval_persists(gate.polys[k], before, after, row);
        }
    }
}

/// A lookup that holds at a used row holds there in every extension of
/// the matrix, as long as the contents of its table columns stay as they
/// are.
pub proof fn lemma_lookup_holds_on(
    lookup: LookupView,
    before: Matrix,
    after: Matrix,
    tables: Seq<Option<Seq<nat>>>,
    later: Seq<Option<Seq<nat>>>,
    row: usize,
)
    requires
        before.wf(),
        before.extended_by(after),
        row < before.rows,
        lookup_holds(lookup, before, tables, row),
        forall|k: int|
            0 <= k < lookup.inputs.len() ==> content(later, (#[trigger] lookup.inputs[k]).table)
                == content(tables, lookup.inputs[k].table),
    ensures
        lookup_holds(lookup, after, later, row),
{
    if after.enabled.contains((lookup.selector.index, row)) {
        assert(before.enabled.contains((lookup.selector.index, row)));
        lemma_lookup_row_persists(lookup, before, after, tables, later, row);
        lemma_lookup_findings_mean_failure(lookup, before, tables, row);
        lemma_lookup_findings_mean_failure(lookup, after, later, row);
    }
}

/// An equality constraint that holds in a matrix holds in every extension
/// of it.
pub proof fn lemma_constraint_holds_on(constraint: EqualityConstraint, before: Matrix, after: Matrix)
    requires
        before.extended_by(after),
        constraint_holds(constraint, before),
    ensures
        constraint_holds(constraint, after),
{
    lemma_value_persists(before, after, constraint.left);
    lemma_value_persists(before, after, constraint.right);
}

/// Whether everything that the region brings holds once the region is
/// committed: every gate and every lookup on the region's rows, and every
/// constraint that the region adds.
pub open spec fn region_holds(s: Synthesis, staged: Staged) -> bool {
    let after = s.commit(staged);
    &&& forall|g: int, row: usize|
        0 <= g < s.shape.gates.len() && staged.base <= row < staged.base + staged.height
            ==> #[trigger] gate_holds(s.shape.gates[g], after.matrix, row)
    &&& forall|l: int, row: usize|
        0 <= l < s.shape.lookups.len() && staged.base <= row < staged.base + staged.height
            ==> #[trigger] lookup_holds(s.shape.lookups[l], after.matrix, s.tables, row)
    &&& forall|i: int|
        0 <= i < staged.equalities.len() ==> constraint_holds(
            #[trigger] staged.equalities[i],
            after.matrix,
        )
}

/// Committing a region to a satisfied state leaves a satisfied state,
/// provided that what the region brings holds: regions are checked one by
/// one, and no region can break an earlier one.
pub proof fn lemma_commit_keeps_satisfied(s: Synthesis, staged: Staged)
    requires
        s.wf(),
        staged.wf(s.shape),
        staged.base == s.matrix.rows,
        satisfied(s.shape, s.matrix, s.equalities, s.tables),
        region_holds(s, staged),
    ensures
        satisfied(
            s.commit(staged).shape,
            s.commit(staged).matrix,
            s.commit(staged).equalities,
            s.commit(staged).tables,
        ),
{
    let after = s.commit(staged);
    lemma_commit_extends(s, staged);
    assert forall|g: int, row: usize|
        0 <= g < after.shape.gates.len() && row < after.matrix.rows implies #[trigger] gate_holds(
        after.shape.gates[g],
        after.matrix,
        row,
    ) by {
        if row < s.matrix.rows {
            assert(gate_holds(s.shape.gates[g], s.matrix, row));
            lemma_gate_holds_on(s.shape.gates[g], s.matrix, after.matrix, row);
        }
    }
    assert forall|l: int, row: usize|
        0 <= l < after.shape.lookups.len() && row
            < after.matrix.rows implies #[trigger] lookup_holds(
        after.shape.lookups[l],
        after.matrix,
        after.tables,
        row,
    ) by {
        if row < s.matrix.rows {
            assert(lookup_holds(s.shape.lookups[l], s.matrix, s.tables, row));
            lemma_lookup_holds_on(
                s.shape.lookups[l],
                s.matrix,
                after.matrix,
                s.tables,
                s.tables,
                row,
            );
        }
    }
    assert forall|i: int| 0 <= i < after.equalities.len() implies constraint_holds(
        #[trigger] after.equalities[i],
        after.matrix,
    ) by {
        if i < s.equalities.len() {
            assert(after.equalities[i] == s.equalities[i]);
            assert(constraint_holds(s.equalities[i], s.matrix));
            lemma_constraint_holds_on(s.equalities[i], s.matrix, after.matrix);
        } else {
            assert(after.equalities[i] == staged.equalities[i - s.equalities.len()]);
        }
    }
}

/// A constraint added to a satisfied state leaves a satisfied state
/// exactly when the constraint holds. For `expose_public` this says: the
/// run stays satisfied exactly when the number equals the public input.
pub proof fn lemma_constraint_decides_satisfaction(s: Synthesis, constraint: EqualityConstraint)
    requires
        satisfied(s.shape, s.matrix, s.equalities, s.tables),
    ensures
        satisfied(s.shape, s.matrix, s.equalities.push(constraint), s.tables) <==> constraint_holds(
            constraint,
            s.matrix,
        ),
{
    let more = s.equalities.push(constraint);
    if constraint_holds(constraint, s.matrix) {
        assert forall|i: int| 0 <= i < more.len() implies constraint_holds(
            #[trigger] more[i],
            s.matrix,
        ) by {
            if i < s.equalities.len() {
                assert(more[i] == s.equalities[i]);
            }
        }
    }
    if satisfied(s.shape, s.matrix, more, s.tables) {
        assert(more[s.equalities.len() as int] == constraint);
    }
}

/// Loading tables into vacant table columns keeps a satisfied state
/// satisfied: what a lookup found in the tables, it still finds.
pub proof fn lemma_loading_keeps_satisfied(s: Synthesis, later: Seq<Option<Seq<nat>>>)
    requires
        satisfied(s.shape, s.matrix, s.equalities, s.tables),
        forall|c: Column| #[trigger]
            content(s.tables, c) is Some ==> content(later, c) == content(s.tables, c),
    ensures
        satisfied(s.shape, s.matrix, s.equalities, later),
{
    assert forall|l: int, row: usize|
        0 <= l < s.shape.lookups.len() && row < s.matrix.rows implies #[trigger] lookup_holds(
        s.shape.lookups[l],
        s.matrix,
        later,
        row,
    ) by {
        let lookup = s.shape.lookups[l];
        assert(lookup_holds(lookup, s.matrix, s.tables, row));
        if s.matrix.enabled.contains((lookup.selector.index, row)) {
            let columns = table_columns(lookup.inputs);
            let tuple = input_values(lookup.inputs, s.matrix, row)->Ok_0;
            let r = choose|r: int| 0 <= r && #[trigger] row_matches(s.tables, columns, tuple, r);
            assert(row_matches(later, columns, tuple, r)) by {
                assert forall|k: int| 0 <= k < columns.len() implies {
                    &&& content(later, #[trigger] columns[k]) is Some
                    &&& r < content(later, columns[k])->Some_0.len()
                    &&& content(later, columns[k])->Some_0[r] == tuple[k]
                } by {
                    assert(content(s.tables, columns[k]) is Some);
                }
            }
        }
    }
}

} // verus!
