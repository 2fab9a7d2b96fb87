//! How the checker's list relates to what each gate, lookup and class
//! yields: nothing is lost, nothing is made up, and the list is a function
//! of what the checker is given.
use crate::assignment::Matrix;
use crate::checker::{
    class_findings, class_part, concat_upto, equality_findings, findings, gate_part,
    gates_findings, lookup_findings, lookup_findings_at, lookup_part, lookup_row_part,
    lookups_findings, missing_part, poly_findings, poly_part, reports, row_findings, row_part,
    views, Finding, Violation,
};
use crate::column::Cell;
use crate::constraint_system::{GateView, LookupView, Shape};
use crate::equality::{class_of, endpoints, EqualityConstraint};
use crate::layouter::Synthesis;
use vstd::prelude::*;

verus! {

/// Whether a finding speaks of the given row.
pub open spec fn on_row(finding: Finding, row: usize) -> bool {
    match finding {
        Finding::Gate { name, row: r } => r == row,
        Finding::Lookup { name, row: r } => r == row,
        Finding::Synthesis { query, row: r } => r == row,
        Finding::Equality { cells } => false,
    }
}

/// What a part holds, the whole holds.
pub proof fn lemma_concat_holds_its_parts(
    n: nat,
    part: spec_fn(int) -> Seq<Finding>,
    k: int,
    finding: Finding,
)
    requires
        0 <= k < n,
        part(k).contains(finding),
    ensures
        concat_upto(n, part).contains(finding),
    decreases n,
{
    let rest = concat_upto((n - 1) as nat, part);
    if k < n - 1 {
        lemma_concat_holds_its_parts((n - 1) as nat, part, k, finding);
        let at = choose|at: int| 0 <= at < rest.len() && rest[at] == finding;
        assert(concat_upto(n, part)[at] == finding);
    } else {
        let last = part(k);
        let at = choose|at: int| 0 <= at < last.len() && last[at] == finding;
        assert(concat_upto(n, part)[rest.len() + at] == finding);
    }
}

/// What the whole holds, one of its parts holds.
pub proof fn lemma_concat_holds_no_more(
    n: nat,
    part: spec_fn(int) -> Seq<Finding>,
    finding: Finding,
) -> (k: int)
    requires
        concat_upto(n, part).contains(finding),
    ensures
        0 <= k < n,
        part(k).contains(finding),
    decreases n,
{
    let whole = concat_upto(n, part);
    let at = choose|at: int| 0 <= at < whole.len() && whole[at] == finding;
    if n == 0 {
        0
    } else {
        let rest = concat_upto((n - 1) as nat, part);
        if at < rest.len() {
            assert(rest[at] == finding);
            lemma_concat_holds_no_more((n - 1) as nat, part, finding)
        } else {
            let last = part(n - 1);
            assert(last[at - rest.len()] == finding);
            n - 1
        }
    }
}

/// What the gates yield at a row are gate and synthesis findings that
/// speak of that row.
pub proof fn lemma_row_findings_speak_of_their_row(
    gates: Seq<GateView>,
    m: Matrix,
    row: usize,
    finding: Finding,
)
    requires
        row_findings(gates, m, row).contains(finding),
    ensures
        on_row(finding, row),
        finding is Gate || finding is Synthesis,
{
    let g = lemma_concat_holds_no_more(gates.len(), gate_part(gates, m, row), finding);
    let gate = gates[g];
    let k = lemma_concat_holds_no_more(gate.polys.len(), poly_part(gate, m, row), finding);
    let part = poly_findings(gate.name, gate.polys[k], m, row);
    let at = choose|at: int| 0 <= at < part.len() && part[at] == finding;
    assert(part[at] == finding);
}

/// What a lookup yields at a row are lookup and synthesis findings that
/// speak of that row.
pub proof fn lemma_lookup_findings_speak_of_their_row(
    lookup: LookupView,
    m: Matrix,
    tables: Seq<Option<Seq<nat>>>,
    row: usize,
    finding: Finding,
)
    requires
        lookup_findings_at(lookup, m, tables, row).contains(finding),
    ensures
        on_row(finding, row),
        finding is Lookup || finding is Synthesis,
{
    let part = lookup_findings_at(lookup, m, tables, row);
    let at = choose|at: int| 0 <= at < part.len() && part[at] == finding;
    assert(part[at] == finding);
}

/// What an equivalence class yields are equality and synthesis findings.
pub proof fn lemma_class_findings_are_no_gate_findings(
    class: Seq<Cell>,
    m: Matrix,
    finding: Finding,
)
    requires
        class_findings(class, m).contains(finding),
    ensures
        finding is Equality || finding is Synthesis,
{
    let whole = class_findings(class, m);
    let missing = concat_upto(class.len(), missing_part(class, m));
    let at = choose|at: int| 0 <= at < whole.len() && whole[at] == finding;
    if at < missing.len() {
        assert(missing[at] == finding);
        let k = lemma_concat_holds_no_more(class.len(), missing_part(class, m), finding);
        let part = missing_part(class, m)(k);
        let j = choose|j: int| 0 <= j < part.len() && part[j] == finding;
        assert(part[j] == finding);
    } else {
        assert(whole[at] == (Finding::Equality { cells: class }));
    }
}

/// The checker reports no broken gate on a row on which no gate has a
/// finding: a gate finding in the checker's list speaks of another row.
pub proof fn lemma_clean_rows_are_not_reported(
    shape: Shape,
    m: Matrix,
    constraints: Seq<EqualityConstraint>,
    tables: Seq<Option<Seq<nat>>>,
    row: usize,
    finding: Finding,
)
    requires
        row_findings(shape.gates, m, row).len() == 0,
        findings(shape, m, constraints, tables).contains(finding),
        finding is Gate,
    ensures
        !on_row(finding, row),
{
    let gates = gates_findings(shape.gates, m);
    let lookups = lookups_findings(shape.lookups, m, tables);
    let equalities = equality_findings(constraints, m);
    let whole = findings(shape, m, constraints, tables);
    let at = choose|at: int| 0 <= at < whole.len() && whole[at] == finding;
    if at < gates.len() {
        assert(gates[at] == finding);
        let r = lemma_concat_holds_no_more(m.rows as nat, row_part(shape.gates, m), finding);
        lemma_row_findings_speak_of_their_row(shape.gates, m, r as usize, finding);
        if r == row {
            let part = row_findings(shape.gates, m, row);
            let j = choose|j: int| 0 <= j < part.len() && part[j] == finding;
        }
    } else if at < gates.len() + lookups.len() {
        assert(lookups[at - gates.len()] == finding);
        let l = lemma_concat_holds_no_more(
            shape.lookups.len(),
            lookup_part(shape.lookups, m, tables),
            finding,
        );
        let r = lemma_concat_holds_no_more(
            m.rows as nat,
            lookup_row_part(shape.lookups[l], m, tables),
            finding,
        );
        lemma_lookup_findings_speak_of_their_row(shape.lookups[l], m, tables, r as usize, finding);
    } else {
        assert(equalities[at - gates.len() - lookups.len()] == finding);
        let p = lemma_concat_holds_no_more(
            endpoints(constraints).len(),
            class_part(constraints, m),
            finding,
        );
        lemma_class_findings_are_no_gate_findings(
            class_of(
                constraints,
                endpoints(constraints),
                endpoints(constraints)[p],
                endpoints(constraints).len(),
            ),
            m,
            finding,
        );
    }
}

/// What a declared lookup yields at a used row is in the checker's list.
pub proof fn lemma_lookup_findings_are_reported(
    shape: Shape,
    m: Matrix,
    constraints: Seq<EqualityConstraint>,
    tables: Seq<Option<Seq<nat>>>,
    l: int,
    row: usize,
    finding: Finding,
)
    requires
        0 <= l < shape.lookups.len(),
        row < m.rows,
        lookup_findings_at(shape.lookups[l], m, tables, row).contains(finding),
    ensures
        findings(shape, m, constraints, tables).contains(finding),
{
    let gates = gates_findings(shape.gates, m);
    let lookups = lookups_findings(shape.lookups, m, tables);
    let whole = findings(shape, m, constraints, tables);
    lemma_concat_holds_its_parts(
        m.rows as nat,
        lookup_row_part(shape.lookups[l], m, tables),
        row as int,
        finding,
    );
    assert(lookup_part(shape.lookups, m, tables)(l) == lookup_findings(
        shape.lookups[l],
        m,
        tables,
    ));
    lemma_concat_holds_its_parts(
        shape.lookups.len(),
        lookup_part(shape.lookups, m, tables),
        l,
        finding,
    );
    let at = choose|at: int| 0 <= at < lookups.len() && lookups[at] == finding;
    assert(whole[gates.len() + at] == finding);
}

/// The checker's answer is a function of what it is given: two runs on
/// the same constraint system, matrix, constraints and tables agree on
/// success, and on failure list the same findings in the same order.
pub proof fn lemma_verify_repeats(
    first: Result<(), Vec<Violation>>,
    second: Result<(), Vec<Violation>>,
    shape: Shape,
    m: Matrix,
    constraints: Seq<EqualityConstraint>,
    tables: Seq<Option<Seq<nat>>>,
)
    requires
        reports(first, shape, m, constraints, tables),
        reports(second, shape, m, constraints, tables),
    ensures
        first is Ok <==> second is Ok,
        first is Err ==> views(first->Err_0@) == views(second->Err_0@),
{
}

} // verus!
