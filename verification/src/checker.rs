//! The satisfiability checker: evaluates every gate, lookup and equality
//! constraint against a finished matrix and lists everything that fails.
use crate::assignment::{Assignment, Matrix};
use crate::column::{Cell, Column};
use crate::constraint_system::{
    gate_views, lookup_views, ConstraintSystem, Gate, GateView, LookupArgument, LookupInput,
    LookupView, Shape,
};
use crate::equality::{
    class_of, endpoints, holds, label_classes, labels_ok, leads, lemma_leader_is_own_label,
    linked, list_endpoints, EqualityConstraint,
};
use crate::expression::{eval, Expression, Query};
use crate::field::FieldElement;
use crate::satisfaction::{lemma_nothing_found_means_satisfied, satisfied};
use crate::table::{has_row, values_view, RowIndex, Tables};
use vstd::prelude::*;

verus! {
/// One thing that the checker found wrong.
#[derive(Debug, PartialEq, Eq)]
pub enum Violation {
    /// A polynomial of the named gate does not vanish at `row`.
    Gate { name: String, row: usize },
    /// The inputs of the named lookup at `row` are no row of its table.
    Lookup { name: String, row: usize },
    /// The cells of one equivalence class do not all carry the same value.
    Equality { cells: Vec<Cell> },
    /// A constraint at `row` refers, through `query`, to a cell that
    /// carries no value.
    Synthesis { query: Query, row: usize },
}

/// The mathematical content of a [`Violation`].
pub enum Finding {
    Gate { name: Seq<char>, row: usize },
    Lookup { name: Seq<char>, row: usize },
    Equality { cells: Seq<Cell> },
    Synthesis { query: Query, row: usize },
}

impl View for Violation {
    type V = Finding;

    open spec fn view(&self) -> Finding {
        match *self {
            Violation::Gate { name, row } => Finding::Gate { name: name@, row },
            Violation::Lookup { name, row } => Finding::Lookup { name: name@, row },
            Violation::Equality { cells } => Finding::Equality { cells: cells@ },
            Violation::Synthesis { query, row } => Finding::Synthesis { query, row },
        }
    }
}

/// The findings that a list of violations stands for.
pub open spec fn views(violations: Seq<Violation>) -> Seq<Finding> {
    violations.map_values(|v: Violation| v@)
}

/// The findings of parts `0` to `n - 1`, one after the other.
pub open spec fn concat_upto(n: nat, part: spec_fn(int) -> Seq<Finding>) -> Seq<Finding>
    decreases n,
{
    if n == 0 {
        Seq::empty()
    } else {
        concat_upto((n - 1) as nat, part) + part(n - 1)
    }
}

/// What one polynomial yields at a row where its selector is switched on.
/// If a cell it reads carries no value, that is a synthesis finding; if it
/// evaluates to something other than zero, a gate finding; else nothing.
pub open spec fn poly_findings(name: Seq<char>, poly: Expression, m: Matrix, row: usize) -> Seq<
    Finding,
> {
    match eval(poly, m, row) {
        Err(query) => seq![Finding::Synthesis { query, row }],
        Ok(v) => if v != 0 {
            seq![Finding::Gate { name, row }]
        } else {
            Seq::empty()
        },
    }
}

/// For each polynomial of a gate, what it yields at a row.
pub open spec fn poly_part(gate: GateView, m: Matrix, row: usize) -> spec_fn(int) -> Seq<Finding> {
    |k: int| poly_findings(gate.name, gate.polys[k], m, row)
}

/// What a gate yields at a row: nothing where its selector is off, else
/// the findings of its polynomials in order.
pub open spec fn gate_findings(gate: GateView, m: Matrix, row: usize) -> Seq<Finding> {
    if m.enabled.contains((gate.selector.index, row)) {
        concat_upto(gate.polys.len(), poly_part(gate, m, row))
    } else {
        Seq::empty()
    }
}

/// For each gate, what it yields at a row.
pub open spec fn gate_part(gates: Seq<GateView>, m: Matrix, row: usize) -> spec_fn(int) -> Seq<
    Finding,
> {
    |g: int| gate_findings(gates[g], m, row)
}

/// What all gates yield at a row, in the order of their declaration.
pub open spec fn row_findings(gates: Seq<GateView>, m: Matrix, row: usize) -> Seq<Finding> {
    concat_upto(gates.len(), gate_part(gates, m, row))
}

/// For each row, what all gates yield at it.
pub open spec fn row_part(gates: Seq<GateView>, m: Matrix) -> spec_fn(int) -> Seq<Finding> {
    |r: int| row_findings(gates, m, r as usize)
}

/// What all gates yield over the used rows, row by row.
pub open spec fn gates_findings(gates: Seq<GateView>, m: Matrix) -> Seq<Finding> {
    concat_upto(m.rows as nat, row_part(gates, m))
}

/// The values of the input expressions of a lookup at a row, or the first
/// query among them whose cell carries no value.
pub open spec fn input_values(inputs: Seq<LookupInput>, m: Matrix, row: usize) -> Result<
    Seq<nat>,
    Query,
>
    decreases inputs.len(),
{
    if inputs.len() == 0 {
        Ok(Seq::empty())
    } else {
        match input_values(inputs.drop_last(), m, row) {
            Err(query) => Err(query),
            Ok(values) => match eval(inputs.last().input, m, row) {
                Err(query) => Err(query),
                Ok(v) => Ok(values.push(v)),
            },
        }
    }
}

/// The table columns that the components of a lookup name.
pub open spec fn table_columns(inputs: Seq<LookupInput>) -> Seq<Column> {
    inputs.map_values(|i: LookupInput| i.table)
}

/// What a lookup yields at a row: nothing where its selector is off; a
/// synthesis finding if an input reads a cell without a value; a lookup
/// finding if the input tuple is no row of the table columns.
pub open spec fn lookup_findings_at(
    lookup: LookupView,
    m: Matrix,
    tables: Seq<Option<Seq<nat>>>,
    row: usize,
) -> Seq<Finding> {
    if !m.enabled.contains((lookup.selector.index, row)) {
        Seq::empty()
    } else {
        match input_values(lookup.inputs, m, row) {
            Err(query) => seq![Finding::Synthesis { query, row }],
            Ok(tuple) => if has_row(tables, table_columns(lookup.inputs), tuple) {
                Seq::empty()
            } else {
                seq![Finding::Lookup { name: lookup.name, row }]
            },
        }
    }
}

/// For each row, what a lookup yields at it.
pub open spec fn lookup_row_part(lookup: LookupView, m: Matrix, tables: Seq<Option<Seq<nat>>>)
    -> spec_fn(int) -> Seq<Finding> {
    |r: int| lookup_findings_at(lookup, m, tables, r as usize)
}

/// What a lookup yields over the used rows.
pub open spec fn lookup_findings(lookup: LookupView, m: Matrix, tables: Seq<Option<Seq<nat>>>)
    -> Seq<Finding> {
    concat_upto(m.rows as nat, lookup_row_part(lookup, m, tables))
}

/// For each lookup, what it yields over the used rows.
pub open spec fn lookup_part(lookups: Seq<LookupView>, m: Matrix, tables: Seq<Option<Seq<nat>>>)
    -> spec_fn(int) -> Seq<Finding> {
    |l: int| lookup_findings(lookups[l], m, tables)
}

/// What all lookups yield, lookup by lookup.
pub open spec fn lookups_findings(
    lookups: Seq<LookupView>,
    m: Matrix,
    tables: Seq<Option<Seq<nat>>>,
) -> Seq<Finding> {
    concat_upto(lookups.len(), lookup_part(lookups, m, tables))
}

/// For each cell of an equivalence class, the synthesis finding that it
/// yields if it carries no value.
pub open spec fn missing_part(class: Seq<Cell>, m: Matrix) -> spec_fn(int) -> Seq<Finding> {
    |k: int|
        if m.value(class[k]) is None {
            seq![
                Finding::Synthesis {
                    query: Query { column: class[k].column, rotation: 0 },
                    row: class[k].row,
                },
            ]
        } else {
            Seq::empty()
        }
}

/// Whether two cells of the class carry different values.
pub open spec fn disagree(class: Seq<Cell>, m: Matrix) -> bool {
    exists|i: int, j: int|
        0 <= i < class.len() && 0 <= j < class.len() && m.value(#[trigger] class[i]) is Some
            && m.value(#[trigger] class[j]) is Some && m.value(class[i]) != m.value(class[j])
}

/// What an equivalence class yields: a synthesis finding for each of its
/// cells without a value, then an equality finding if the values that are
/// there differ.
pub open spec fn class_findings(class: Seq<Cell>, m: Matrix) -> Seq<Finding> {
    concat_upto(class.len(), missing_part(class, m)) + if disagree(class, m) {
        seq![Finding::Equality { cells: class }]
    } else {
        Seq::empty()
    }
}

/// For each endpoint of the constraints, what its equivalence class
/// yields if the endpoint is the first cell of the class, and nothing if
/// it is not.
pub open spec fn class_part(constraints: Seq<EqualityConstraint>, m: Matrix) -> spec_fn(int) -> Seq<
    Finding,
> {
    |p: int|
        if leads(constraints, endpoints(constraints), p) {
            class_findings(
                class_of(
                    constraints,
                    endpoints(constraints),
                    endpoints(constraints)[p],
                    endpoints(constraints).len(),
                ),
                m,
            )
        } else {
            Seq::empty()
        }
}

/// What the equality constraints yield: the findings of each equivalence
/// class, the classes ordered by their first cell among the endpoints.
pub open spec fn equality_findings(constraints: Seq<EqualityConstraint>, m: Matrix) -> Seq<Finding> {
    concat_upto(endpoints(constraints).len(), class_part(constraints, m))
}

/// Everything that is wrong with a matrix: the findings of the gates, then
/// of the lookups, then of the equality constraints.
pub open spec fn findings(
    shape: Shape,
    m: Matrix,
    constraints: Seq<EqualityConstraint>,
    tables: Seq<Option<Seq<nat>>>,
) -> Seq<Finding> {
    gates_findings(shape.gates, m) + lookups_findings(shape.lookups, m, tables) + equality_findings(
        constraints,
        m,
    )
}

/// Parts without findings make a whole without findings.
pub proof fn lemma_concat_of_nothing(n: nat, part: spec_fn(int) -> Seq<Finding>)
    requires
        forall|k: int| 0 <= k < n ==> (#[trigger] part(k)).len() == 0,
    ensures
        concat_upto(n, part) == Seq::<Finding>::empty(),
    decreases n,
{
    if n > 0 {
        lemma_concat_of_nothing((n - 1) as nat, part);
        assert(part(n - 1).len() == 0);
        assert(concat_upto(n, part) =~= Seq::<Finding>::empty());
    }
}

/// A whole without findings is made of parts without findings.
pub proof fn lemma_concat_is_nothing(n: nat, part: spec_fn(int) -> Seq<Finding>, k: int)
    requires
        concat_upto(n, part).len() == 0,
        0 <= k < n,
    ensures
        part(k).len() == 0,
    decreases n,
{
    if k < n - 1 {
        lemma_concat_is_nothing((n - 1) as nat, part, k);
    }
}

/// Whether `r` is the checker's answer for the given inputs: `Ok` when
/// there are no findings, else `Err` with one violation for each finding,
/// in order.
pub open spec fn reports(
    r: Result<(), Vec<Violation>>,
    shape: Shape,
    m: Matrix,
    constraints: Seq<EqualityConstraint>,
    tables: Seq<Option<Seq<nat>>>,
) -> bool {
    match r {
        Ok(()) => findings(shape, m, constraints, tables).len() == 0,
        Err(violations) => violations@.len() > 0 && views(violations@) == findings(
            shape,
            m,
            constraints,
            tables,
        ),
    }
}

/// Appends a violation, and says what that does to the findings.
fn report(out: &mut Vec<Violation>, violation: Violation)
    ensures
        views(final(out)@) == views(old(out)@).push(violation@),
{
    out.push(violation);
    assert(views(out@) =~= views(old(out)@).push(violation@));
}

/// Checks one gate at one row.
fn check_gate(gate: &Gate, matrix: &Assignment, row: usize, out: &mut Vec<Violation>)
    ensures
        views(final(out)@) == views(old(out)@) + gate_findings(gate@, matrix@, row),
{
    if !matrix.is_enabled(gate.selector.index, row) {
        assert(views(out@) + Seq::<Finding>::empty() =~= views(out@));
        return ;
    }
    let mut k: usize = 0;
    assert(views(out@) + Seq::<Finding>::empty() =~= views(out@));
    while k < gate.polys.len()
        invariant
            k <= gate.polys.len(),
            views(out@) == views(old(out)@) + concat_upto(k as nat, poly_part(gate@, matrix@, row)),
        decreases gate.polys.len() - k,
    {
        let ghost before = views(out@);
        let ghost part = poly_findings(gate@.name, gate@.polys[k as int], matrix@, row);
        match gate.polys[k].evaluate(matrix, row) {
            Err(query) => {
                report(out, Violation::Synthesis { query, row });
            },
            Ok(v) => {
                if !v.is_zero() {
                    report(out, Violation::Gate { name: gate.name.clone(), row });
                }
            },
        }
        proof {
            assert(views(out@) =~= before + part);
            assert(concat_upto((k + 1) as nat, poly_part(gate@, matrix@, row)) == concat_upto(
                k as nat,
                poly_part(gate@, matrix@, row),
            ) + part);
            assert(views(out@) =~= views(old(out)@) + concat_upto(
                (k + 1) as nat,
                poly_part(gate@, matrix@, row),
            ));
        }
        k += 1;
    }
}

/// Checks every gate at one row.
fn check_row(gates: &Vec<Gate>, matrix: &Assignment, row: usize, out: &mut Vec<Violation>)
    ensures
        views(final(out)@) == views(old(out)@) + row_findings(gate_views(gates@), matrix@, row),
{
    let mut g: usize = 0;
    assert(views(out@) + Seq::<Finding>::empty() =~= views(out@));
    while g < gates.len()
        invariant
            g <= gates.len(),
            views(out@) == views(old(out)@) + concat_upto(
                g as nat,
                gate_part(gate_views(gates@), matrix@, row),
            ),
        decreases gates.len() - g,
    {
        let ghost before = views(out@);
        check_gate(&gates[g], matrix, row, out);
        proof {
            let part = gate_findings(gate_views(gates@)[g as int], matrix@, row);
            assert(views(out@) == before + part);
            assert(views(out@) =~= views(old(out)@) + concat_upto(
                (g + 1) as nat,
                gate_part(gate_views(gates@), matrix@, row),
            ));
        }
        g += 1;
    }
}

/// Checks every gate at every used row.
fn check_gates(gates: &Vec<Gate>, matrix: &Assignment, out: &mut Vec<Violation>)
    ensures
        views(final(out)@) == views(old(out)@) + gates_findings(gate_views(gates@), matrix@),
{
    let rows = matrix.rows();
    let mut row: usize = 0;
    assert(views(out@) + Seq::<Finding>::empty() =~= views(out@));
    while row < rows
        invariant
            row <= rows == matrix@.rows,
            views(out@) == views(old(out)@) + concat_upto(
                row as nat,
                row_part(gate_views(gates@), matrix@),
            ),
        decreases rows - row,
    {
        let ghost before = views(out@);
        check_row(gates, matrix, row, out);
        proof {
            let part = row_findings(gate_views(gates@), matrix@, row);
            assert(views(out@) == before + part);
            assert(views(out@) =~= views(old(out)@) + concat_upto(
                (row + 1) as nat,
                row_part(gate_views(gates@), matrix@),
            ));
        }
        row += 1;
    }
}

/// Once a prefix of the inputs fails to evaluate, so does the whole list,
/// at the same query.
proof fn lemma_input_values_fail(inputs: Seq<LookupInput>, j: int, m: Matrix, row: usize)
    requires
        0 <= j <= inputs.len(),
        input_values(inputs.take(j), m, row) is Err,
    ensures
        input_values(inputs, m, row) == input_values(inputs.take(j), m, row),
    decreases inputs.len(),
{
    if j == inputs.len() {
        assert(inputs.take(j) =~= inputs);
    } else {
        assert(inputs.drop_last().take(j) =~= inputs.take(j));
        lemma_input_values_fail(inputs.drop_last(), j, m, row);
    }
}

/// The table columns that the components of a lookup name, in order.
fn lookup_columns(lookup: &LookupArgument) -> (columns: Vec<Column>)
    ensures
        columns@ == table_columns(lookup@.inputs),
{
    let mut columns: Vec<Column> = Vec::new();
    let mut k: usize = 0;
    while k < lookup.inputs.len()
        invariant
            k <= lookup.inputs.len(),
            columns@ == table_columns(lookup.inputs@.take(k as int)),
        decreases lookup.inputs.len() - k,
    {
        columns.push(lookup.inputs[k].table);
        proof {
            assert(columns@ =~= table_columns(lookup.inputs@.take(k + 1)));
        }
        k += 1;
    }
    proof {
        assert(lookup.inputs@.take(lookup.inputs@.len() as int) =~= lookup.inputs@);
    }
    columns
}

/// Checks one lookup at one row, with an index of its table columns.
fn check_lookup_at(
    lookup: &LookupArgument,
    matrix: &Assignment,
    tables: &Tables,
    columns: &Vec<Column>,
    index: &RowIndex,
    row: usize,
    out: &mut Vec<Violation>,
)
    requires
        columns@ == table_columns(lookup@.inputs),
        index.wf(tables@, columns@),
    ensures
        views(final(out)@) == views(old(out)@) + lookup_findings_at(
            lookup@,
            matrix@,
            tables@,
            row,
        ),
{
    if !matrix.is_enabled(lookup.selector.index, row) {
        assert(views(out@) + Seq::<Finding>::empty() =~= views(out@));
        return ;
    }
    let mut tuple: Vec<FieldElement> = Vec::new();
    let mut k: usize = 0;
    assert(lookup.inputs@.take(0) =~= Seq::empty());
    assert(values_view(tuple@) =~= Seq::empty());
    while k < lookup.inputs.len()
        invariant
            k <= lookup.inputs.len(),
            *out == *old(out),
            matrix@.enabled.contains((lookup@.selector.index, row)),
            input_values(lookup.inputs@.take(k as int), matrix@, row) == Ok::<Seq<nat>, Query>(
                values_view(tuple@),
            ),
            tuple@.len() == k,
        decreases lookup.inputs.len() - k,
    {
        proof {
            assert(lookup.inputs@.take(k + 1).drop_last() =~= lookup.inputs@.take(k as int));
        }
        match lookup.inputs[k].input.evaluate(matrix, row) {
            Err(query) => {
                proof {
                    lemma_input_values_fail(lookup.inputs@, k + 1, matrix@, row);
                }
                report(out, Violation::Synthesis { query, row });
                assert(views(out@) =~= views(old(out)@) + seq![Finding::Synthesis { query, row }]);
                return ;
            },
            Ok(v) => {
                let ghost before = values_view(tuple@);
                tuple.push(v);
                proof {
                    assert(values_view(tuple@) =~= before.push(v@));
                }
            },
        }
        k += 1;
    }
    proof {
        assert(lookup.inputs@.take(lookup.inputs@.len() as int) =~= lookup.inputs@);
    }
    if !tables.has_indexed_row(index, columns, &tuple) {
        report(out, Violation::Lookup { name: lookup.name.clone(), row });
        assert(views(out@) =~= views(old(out)@) + seq![
            Finding::Lookup { name: lookup@.name, row },
        ]);
    } else {
        assert(views(out@) + Seq::<Finding>::empty() =~= views(out@));
    }
}

/// Checks one lookup at every used row. Its table columns are indexed
/// once, so that a row costs a look into the index and not a pass over the
/// table.
fn check_lookup(
    lookup: &LookupArgument,
    matrix: &Assignment,
    tables: &Tables,
    out: &mut Vec<Violation>,
)
    ensures
        views(final(out)@) == views(old(out)@) + lookup_findings(lookup@, matrix@, tables@),
{
    let columns = lookup_columns(lookup);
    let index = tables.index(&columns);
    let rows = matrix.rows();
    let mut row: usize = 0;
    assert(views(out@) + Seq::<Finding>::empty() =~= views(out@));
    while row < rows
        invariant
            row <= rows == matrix@.rows,
            columns@ == table_columns(lookup@.inputs),
            index.wf(tables@, columns@),
            views(out@) == views(old(out)@) + concat_upto(
                row as nat,
                lookup_row_part(lookup@, matrix@, tables@),
            ),
        decreases rows - row,
    {
        let ghost before = views(out@);
        check_lookup_at(lookup, matrix, tables, &columns, &index, row, out);
        proof {
            let part = lookup_findings_at(lookup@, matrix@, tables@, row);
            assert(views(out@) == before + part);
            assert(views(out@) =~= views(old(out)@) + concat_upto(
                (row + 1) as nat,
                lookup_row_part(lookup@, matrix@, tables@),
            ));
        }
        row += 1;
    }
}

/// Checks every lookup.
fn check_lookups(
    lookups: &Vec<LookupArgument>,
    matrix: &Assignment,
    tables: &Tables,
    out: &mut Vec<Violation>,
)
    ensures
        views(final(out)@) == views(old(out)@) + lookups_findings(
            lookup_views(lookups@),
            matrix@,
            tables@,
        ),
{
    let mut l: usize = 0;
    assert(views(out@) + Seq::<Finding>::empty() =~= views(out@));
    while l < lookups.len()
        invariant
            l <= lookups.len(),
            views(out@) == views(old(out)@) + concat_upto(
                l as nat,
                lookup_part(lookup_views(lookups@), matrix@, tables@),
            ),
        decreases lookups.len() - l,
    {
        let ghost before = views(out@);
        check_lookup(&lookups[l], matrix, tables, out);
        proof {
            let part = lookup_findings(lookup_views(lookups@)[l as int], matrix@, tables@);
            assert(views(out@) == before + part);
            assert(views(out@) =~= views(old(out)@) + concat_upto(
                (l + 1) as nat,
                lookup_part(lookup_views(lookups@), matrix@, tables@),
            ));
        }
        l += 1;
    }
}

/// Gathers the equivalence class that position `p` leads.
fn collect_class(
    Ghost(constraints): Ghost<Seq<EqualityConstraint>>,
    cells: &Vec<Cell>,
    labels: &Vec<usize>,
    p: usize,
) -> (class: Vec<Cell>)
    requires
        labels_ok(constraints, cells@, labels@),
        p < cells.len(),
    ensures
        class@ == class_of(constraints, cells@, cells@[p as int], cells@.len()),
{
    let mut class: Vec<Cell> = Vec::new();
    let mut q: usize = 0;
    while q < cells.len()
        invariant
            q <= cells.len() == labels.len(),
            p < cells.len(),
            labels_ok(constraints, cells@, labels@),
            class@ == class_of(constraints, cells@, cells@[p as int], q as nat),
        decreases cells.len() - q,
    {
        proof {
            assert(linked(constraints, cells@[p as int], cells@[q as int]) <==> labels@[p as int]
                == labels@[q as int]);
        }
        if labels[q] == labels[p] && !holds(&class, cells[q]) {
            class.push(cells[q]);
        }
        q += 1;
    }
    class
}

/// Checks one equivalence class.
fn check_class(class: Vec<Cell>, matrix: &Assignment, out: &mut Vec<Violation>)
    ensures
        views(final(out)@) == views(old(out)@) + class_findings(class@, matrix@),
{
    let mut k: usize = 0;
    let mut reference: Option<FieldElement> = None;
    let mut differ = false;
    assert(views(out@) + Seq::<Finding>::empty() =~= views(out@));
    while k < class.len()
        invariant
            k <= class.len(),
            views(out@) == views(old(out)@) + concat_upto(k as nat, missing_part(class@, matrix@)),
            reference is None ==> forall|i: int|
                0 <= i < k ==> matrix@.value(#[trigger] class@[i]) is None,
            reference is Some ==> exists|i: int|
                0 <= i < k && matrix@.value(#[trigger] class@[i]) == Some(reference->Some_0@),
            !differ ==> forall|i: int|
                0 <= i < k && matrix@.value(#[trigger] class@[i]) is Some ==> reference is Some
                    && matrix@.value(class@[i]) == Some(reference->Some_0@),
            differ ==> disagree(class@.take(k as int), matrix@),
        decreases class.len() - k,
    {
        let ghost before = views(out@);
        let ghost part = missing_part(class@, matrix@)(k as int);
        let cell = class[k];
        match matrix.value(cell) {
            None => {
                report(
                    out,
                    Violation::Synthesis {
                        query: Query { column: cell.column, rotation: 0 },
                        row: cell.row,
                    },
                );
                proof {
                    if differ {
                        lemma_disagree_grows(class@, k as int, matrix@);
                    }
                }
            },
            Some(v) => {
                proof {
                    if differ {
                        lemma_disagree_grows(class@, k as int, matrix@);
                    }
                }
                match reference {
                    None => {
                        reference = Some(v);
                    },
                    Some(r) => {
                        if !r.same(&v) {
                            proof {
                                let i = choose|i: int|
                                    0 <= i < k && matrix@.value(#[trigger] class@[i]) == Some(r@);
                                assert(class@.take(k + 1)[i] == class@[i]);
                                assert(class@.take(k + 1)[k as int] == class@[k as int]);
                            }
                            differ = true;
                        }
                    },
                }
            },
        }
        proof {
            assert(views(out@) =~= before + part);
            assert(views(out@) =~= views(old(out)@) + concat_upto(
                (k + 1) as nat,
                missing_part(class@, matrix@),
            ));
        }
        k += 1;
    }
    proof {
        assert(class@.take(class@.len() as int) =~= class@);
    }
    if differ {
        let ghost before = views(out@);
        let ghost cells = class@;
        report(out, Violation::Equality { cells: class });
        assert(views(out@) =~= views(old(out)@) + class_findings(cells, matrix@));
    } else {
        assert(!disagree(class@, matrix@));
        assert(views(out@) =~= views(old(out)@) + class_findings(class@, matrix@));
    }
}

/// Cells that disagree among the first `k` still disagree among the first
/// `k + 1`.
proof fn lemma_disagree_grows(class: Seq<Cell>, k: int, m: Matrix)
    requires
        0 <= k < class.len(),
        disagree(class.take(k), m),
    ensures
        disagree(class.take(k + 1), m),
{
    let (i, j) = choose|i: int, j: int|
        0 <= i < class.take(k).len() && 0 <= j < class.take(k).len() && m.value(
            #[trigger] class.take(k)[i],
        ) is Some && m.value(#[trigger] class.take(k)[j]) is Some && m.value(class.take(k)[i])
            != m.value(class.take(k)[j]);
    assert(class.take(k + 1)[i] == class.take(k)[i]);
    assert(class.take(k + 1)[j] == class.take(k)[j]);
}

/// Checks the equality constraints, class by class.
fn check_equalities(
    constraints: &Vec<EqualityConstraint>,
    matrix: &Assignment,
    out: &mut Vec<Violation>,
)
    ensures
        views(final(out)@) == views(old(out)@) + equality_findings(constraints@, matrix@),
{
    let cells = list_endpoints(constraints);
    let labels = label_classes(constraints, &cells);
    let mut p: usize = 0;
    assert(views(out@) + Seq::<Finding>::empty() =~= views(out@));
    while p < cells.len()
        invariant
            p <= cells.len(),
            cells@ == endpoints(constraints@),
            labels_ok(constraints@, cells@, labels@),
            views(out@) == views(old(out)@) + concat_upto(
                p as nat,
                class_part(constraints@, matrix@),
            ),
        decreases cells.len() - p,
    {
        let ghost before = views(out@);
        let ghost part = class_part(constraints@, matrix@)(p as int);
        proof {
            lemma_leader_is_own_label(constraints@, cells@, labels@, p as int);
        }
        if labels[p] == p {
            let class = collect_class(Ghost(constraints@), &cells, &labels, p);
            check_class(class, matrix, out);
        } else {
            assert(views(out@) + Seq::<Finding>::empty() =~= views(out@));
        }
        proof {
            assert(views(out@) == before + part);
            assert(views(out@) =~= views(old(out)@) + concat_upto(
                (p + 1) as nat,
                class_part(constraints@, matrix@),
            ));
        }
        p += 1;
    }
}

/// Checks a finished matrix against a constraint system: every gate at
/// every used row, every lookup at every used row, and every equivalence
/// class of the equality constraints. All findings are collected; the
/// result is `Ok` exactly when there are none, which is exactly when the
/// matrix satisfies the circuit.
pub fn verify(
    cs: &ConstraintSystem,
    assignment: &Assignment,
    equalities: &Vec<EqualityConstraint>,
    tables: &Tables,
) -> (r: Result<(), Vec<Violation>>)
    ensures
        reports(r, cs@, assignment@, equalities@, tables@),
        r is Ok <==> satisfied(cs@, assignment@, equalities@, tables@),
{
    proof {
        lemma_nothing_found_means_satisfied(cs@, assignment@, equalities@, tables@);
    }
    let mut out: Vec<Violation> = Vec::new();
    assert(views(out@) =~= Seq::empty());
    check_gates(cs.gates(), assignment, &mut out);
    check_lookups(cs.lookups(), assignment, tables, &mut out);
    check_equalities(equalities, assignment, &mut out);
    assert(views(out@) =~= findings(cs@, assignment@, equalities@, tables@));
    if out.len() == 0 {
        Ok(())
    } else {
        Err(out)
    }
}

} // verus!
