//! What the chip's regions guarantee to the checker: each operation yields
//! the value it is named after in a region that satisfies its constraints,
//! and keeps a satisfied state satisfied.
use crate::checker::{
    concat_upto, findings, gate_part, input_values, lemma_concat_is_nothing,
    lemma_concat_of_nothing, lookup_findings_at, poly_findings, poly_part, row_findings,
    table_columns, Finding,
};
use crate::chip::{product_view, sum_view, xor_low, xor_view, FieldConfig, Number};
use crate::column::{Cell, Selector};
use crate::constraint_system::{GateView, Shape};
use crate::expression::{eval, read, Expression, Query};
use crate::field::{field_add, field_mul, lemma_field_sub_self};
use crate::layouter::{lemma_commit_extends, Staged, Synthesis};
use crate::persistence::{lemma_commit_keeps_satisfied, lemma_value_persists, region_holds};
use crate::satisfaction::{
    constraint_holds, gate_holds, lemma_gate_findings_mean_failure,
    lemma_lookup_findings_mean_failure, lookup_holds, satisfied,
};
use crate::table::{content, has_row, lemma_xor_table_rows, row_matches, xor_of, xor_table};
use vstd::arithmetic::power2::{lemma2_to64, lemma_pow2_strictly_increases, pow2};
use vstd::prelude::*;

verus! {

/// In a well-formed shape, a gate that shares the index of a declared
/// simple selector with a declared gate is that gate.
pub proof fn lemma_simple_selector_names_one_gate(shape: Shape, gate: GateView, g: int)
    requires
        shape.wf(),
        shape.gates.contains(gate),
        !gate.selector.complex,
        0 <= g < shape.gates.len(),
        shape.gates[g].selector.index == gate.selector.index,
    ensures
        shape.gates[g] == gate,
{
    let h = choose|h: int| 0 <= h < shape.gates.len() && shape.gates[h] == gate;
    assert(shape.declares_selector(shape.gates[g].selector));
    assert(shape.declares_selector(shape.gates[h].selector));
    assert(shape.gates[g].selector == shape.gates[h].selector);
    if g < h {
        assert(shape.gates[g].selector.complex);
    } else if h < g {
        assert(shape.gates[h].selector.complex);
    }
}

/// The two rows of a region of `add` or `mul` are without gate findings,
/// provided that the polynomial of the region's own gate vanishes on the
/// first of them.
proof fn lemma_binary_region_is_clean(
    config: FieldConfig,
    s: Synthesis,
    gate: GateView,
    a: Number,
    b: Number,
    out: Option<nat>,
)
    requires
        s.wf(),
        config.installed(s.shape),
        s.matrix.rows + 2 <= usize::MAX,
        gate == config.add_gate() || gate == config.mul_gate(),
        eval(
            gate.polys[0],
            s.commit(
                config.binary_region(gate.name, gate.selector, s.matrix.rows, a, b, out),
            ).matrix,
            s.matrix.rows,
        ) == Ok::<nat, Query>(0),
    ensures
        row_findings(
            s.shape.gates,
            s.commit(
                config.binary_region(gate.name, gate.selector, s.matrix.rows, a, b, out),
            ).matrix,
            s.matrix.rows,
        ) == Seq::<Finding>::empty(),
        row_findings(
            s.shape.gates,
            s.commit(
                config.binary_region(gate.name, gate.selector, s.matrix.rows, a, b, out),
            ).matrix,
            (s.matrix.rows + 1) as usize,
        ) == Seq::<Finding>::empty(),
{
    let base = s.matrix.rows;
    let next = (base + 1) as usize;
    let m = s.commit(config.binary_region(gate.name, gate.selector, base, a, b, out)).matrix;
    let gates = s.shape.gates;
    assert forall|g: int| 0 <= g < gates.len() implies (#[trigger] gate_part(gates, m, base)(
        g,
    )).len() == 0 by {
        if m.enabled.contains((gates[g].selector.index, base)) {
            assert(!s.matrix.enabled.contains((gates[g].selector.index, base)));
            lemma_simple_selector_names_one_gate(s.shape, gate, g);
            assert(gate.polys.len() == 1);
            assert(poly_part(gate, m, base)(0) == poly_findings(gate.name, gate.polys[0], m, base));
            assert(concat_upto(0, poly_part(gate, m, base)) =~= Seq::<Finding>::empty());
            assert(concat_upto(1, poly_part(gate, m, base)) =~= concat_upto(
                0,
                poly_part(gate, m, base),
            ) + poly_part(gate, m, base)(0));
        }
    }
    lemma_concat_of_nothing(gates.len(), gate_part(gates, m, base));
    assert forall|g: int| 0 <= g < gates.len() implies (#[trigger] gate_part(gates, m, next)(
        g,
    )).len() == 0 by {
        assert(!s.matrix.enabled.contains((gates[g].selector.index, next)));
    }
    lemma_concat_of_nothing(gates.len(), gate_part(gates, m, next));
}

/// After `add` on two numbers that carry values, the result cell holds
/// their sum in the field, and no gate has a finding on the two rows of
/// the region.
pub proof fn lemma_add_region_is_satisfied(
    config: FieldConfig,
    s: Synthesis,
    a: Number,
    b: Number,
)
    requires
        s.wf(),
        config.installed(s.shape),
        s.matrix.rows + 2 <= usize::MAX,
        a.value is Some,
        b.value is Some,
    ensures
        ({
            let base = s.matrix.rows;
            let after = s.commit(
                config.binary_region("add"@, config.sadd, base, a, b, sum_view(a.value, b.value)),
            );
            &&& after.matrix.value(Cell { column: config.advices[0], row: (base + 1) as usize })
                == Some(field_add(a.value->Some_0@, b.value->Some_0@))
            &&& row_findings(after.shape.gates, after.matrix, base) == Seq::<Finding>::empty()
            &&& row_findings(after.shape.gates, after.matrix, (base + 1) as usize) == Seq::<
                Finding,
            >::empty()
        }),
{
    let base = s.matrix.rows;
    let out = sum_view(a.value, b.value);
    let m = s.commit(config.binary_region("add"@, config.sadd, base, a, b, out)).matrix;
    let x = a.value->Some_0@;
    let y = b.value->Some_0@;
    let lhs = Cell { column: config.advices[0], row: base };
    let rhs = Cell { column: config.advices[1], row: base };
    let below = Cell { column: config.advices[0], row: (base + 1) as usize };
    assert(m.value(lhs) == Some(x));
    assert(m.value(rhs) == Some(y));
    assert(m.value(below) == Some(field_add(x, y)));
    let left = Query { column: config.advices[0], rotation: 0 };
    let right = Query { column: config.advices[1], rotation: 0 };
    let result = Query { column: config.advices[0], rotation: 1 };
    assert(read(left, m, base) == Ok::<nat, Query>(x));
    assert(read(right, m, base) == Ok::<nat, Query>(y));
    assert(read(result, m, base) == Ok::<nat, Query>(field_add(x, y)));
    let sum = Expression::Sum(
        Box::new(Expression::Query(left)),
        Box::new(Expression::Query(right)),
    );
    assert(eval(Expression::Query(left), m, base) == Ok::<nat, Query>(x));
    assert(eval(Expression::Query(right), m, base) == Ok::<nat, Query>(y));
    assert(eval(sum, m, base) == Ok::<nat, Query>(field_add(x, y)));
    assert(eval(Expression::Query(result), m, base) == Ok::<nat, Query>(field_add(x, y)));
    lemma_field_sub_self(field_add(x, y));
    assert(eval(config.add_poly(), m, base) == Ok::<nat, Query>(0));
    lemma_binary_region_is_clean(config, s, config.add_gate(), a, b, out);
}

/// After `mul` on two numbers that carry values, the result cell holds
/// their product in the field, and no gate has a finding on the two rows
/// of the region.
pub proof fn lemma_mul_region_is_satisfied(
    config: FieldConfig,
    s: Synthesis,
    a: Number,
    b: Number,
)
    requires
        s.wf(),
        config.installed(s.shape),
        s.matrix.rows + 2 <= usize::MAX,
        a.value is Some,
        b.value is Some,
    ensures
        ({
            let base = s.matrix.rows;
            let after = s.commit(
                config.binary_region(
                    "mul"@,
                    config.smul,
                    base,
                    a,
                    b,
                    product_view(a.value, b.value),
                ),
            );
            &&& after.matrix.value(Cell { column: config.advices[0], row: (base + 1) as usize })
                == Some(field_mul(a.value->Some_0@, b.value->Some_0@))
            &&& row_findings(after.shape.gates, after.matrix, base) == Seq::<Finding>::empty()
            &&& row_findings(after.shape.gates, after.matrix, (base + 1) as usize) == Seq::<
                Finding,
            >::empty()
        }),
{
    let base = s.matrix.rows;
    let out = product_view(a.value, b.value);
    let m = s.commit(config.binary_region("mul"@, config.smul, base, a, b, out)).matrix;
    let x = a.value->Some_0@;
    let y = b.value->Some_0@;
    let lhs = Cell { column: config.advices[0], row: base };
    let rhs = Cell { column: config.advices[1], row: base };
    let below = Cell { column: config.advices[0], row: (base + 1) as usize };
    assert(m.value(lhs) == Some(x));
    assert(m.value(rhs) == Some(y));
    assert(m.value(below) == Some(field_mul(x, y)));
    let left = Query { column: config.advices[0], rotation: 0 };
    let right = Query { column: config.advices[1], rotation: 0 };
    let result = Query { column: config.advices[0], rotation: 1 };
    assert(read(left, m, base) == Ok::<nat, Query>(x));
    assert(read(right, m, base) == Ok::<nat, Query>(y));
    assert(read(result, m, base) == Ok::<nat, Query>(field_mul(x, y)));
    let product = Expression::Product(
        Box::new(Expression::Query(left)),
        Box::new(Expression::Query(right)),
    );
    assert(eval(Expression::Query(left), m, base) == Ok::<nat, Query>(x));
    assert(eval(Expression::Query(right), m, base) == Ok::<nat, Query>(y));
    assert(eval(product, m, base) == Ok::<nat, Query>(field_mul(x, y)));
    assert(eval(Expression::Query(result), m, base) == Ok::<nat, Query>(field_mul(x, y)));
    lemma_field_sub_self(field_mul(x, y));
    assert(eval(config.mul_poly(), m, base) == Ok::<nat, Query>(0));
    lemma_binary_region_is_clean(config, s, config.mul_gate(), a, b, out);
}

/// The inputs of the XOR lookup evaluate, on the row of an `xor` region,
/// to the two operands and the staged result.
proof fn lemma_xor_inputs(config: FieldConfig, s: Synthesis, a: Number, b: Number, out: nat)
    requires
        s.wf(),
        config.installed(s.shape),
        s.matrix.rows < usize::MAX,
        a.value is Some,
        b.value is Some,
    ensures
        input_values(
            config.xor_lookup().inputs,
            s.commit(config.xor_region(s.matrix.rows, a, b, Some(out))).matrix,
            s.matrix.rows,
        ) == Ok::<Seq<nat>, Query>(seq![a.value->Some_0@, b.value->Some_0@, out]),
        table_columns(config.xor_lookup().inputs) == seq![
            config.xor_table[0],
            config.xor_table[1],
            config.xor_table[2],
        ],
        s.commit(config.xor_region(s.matrix.rows, a, b, Some(out))).matrix.enabled.contains(
            (config.stable.index, s.matrix.rows),
        ),
{
    let base = s.matrix.rows;
    let m = s.commit(config.xor_region(base, a, b, Some(out))).matrix;
    let x = a.value->Some_0@;
    let y = b.value->Some_0@;
    let inputs = config.xor_lookup().inputs;
    let two = inputs.drop_last();
    let one = two.drop_last();
    assert(m.value(Cell { column: config.advices[0], row: base }) == Some(x));
    assert(m.value(Cell { column: config.advices[1], row: base }) == Some(y));
    assert(m.value(Cell { column: config.xord, row: base }) == Some(out));
    assert(read(Query { column: config.advices[0], rotation: 0 }, m, base) == Ok::<nat, Query>(x));
    assert(read(Query { column: config.advices[1], rotation: 0 }, m, base) == Ok::<nat, Query>(y));
    assert(read(Query { column: config.xord, rotation: 0 }, m, base) == Ok::<nat, Query>(out));
    assert(one.drop_last() =~= Seq::empty());
    assert(input_values(one.drop_last(), m, base) == Ok::<Seq<nat>, Query>(Seq::empty()));
    assert(eval(one.last().input, m, base) == Ok::<nat, Query>(x));
    assert(input_values(one, m, base) == Ok::<Seq<nat>, Query>(Seq::<nat>::empty().push(x)));
    assert(eval(two.last().input, m, base) == Ok::<nat, Query>(y));
    assert(input_values(two, m, base) == Ok::<Seq<nat>, Query>(
        Seq::<nat>::empty().push(x).push(y),
    ));
    assert(eval(inputs.last().input, m, base) == Ok::<nat, Query>(out));
    assert(Seq::<nat>::empty().push(x).push(y).push(out) =~= seq![x, y, out]);
    assert(table_columns(inputs) =~= seq![
        config.xor_table[0],
        config.xor_table[1],
        config.xor_table[2],
    ]);
}

/// The XOR of the low 32 bits of two numbers of at most 15 bits is their
/// XOR.
proof fn lemma_xor_low_of_small(x: nat, y: nat)
    requires
        x < 0x8000,
        y < 0x8000,
    ensures
        xor_low(x, y) == xor_of(x, y),
{
    let p = x as u32;
    let q = y as u32;
    assert((p ^ q) as u64 == (p as u64) ^ (q as u64)) by (bit_vector);
}

/// After `xor` on two numbers whose values have no more bits than the XOR
/// table covers, the result cell holds the XOR of the two values, and the
/// XOR lookup has no finding on the row of the region.
pub proof fn lemma_xor_region_is_satisfied(
    config: FieldConfig,
    s: Synthesis,
    a: Number,
    b: Number,
)
    requires
        s.wf(),
        config.installed(s.shape),
        config.table_loaded(s.tables),
        s.matrix.rows < usize::MAX,
        a.value is Some,
        b.value is Some,
        a.value->Some_0@ < pow2(config.xor_bitlength as nat),
        b.value->Some_0@ < pow2(config.xor_bitlength as nat),
    ensures
        ({
            let base = s.matrix.rows;
            let after = s.commit(config.xor_region(base, a, b, xor_view(a.value, b.value)));
            &&& after.matrix.value(Cell { column: config.xord, row: base }) == Some(
                xor_of(a.value->Some_0@, b.value->Some_0@),
            )
            &&& lookup_findings_at(config.xor_lookup(), after.matrix, after.tables, base) == Seq::<
                Finding,
            >::empty()
        }),
{
    let base = s.matrix.rows;
    let x = a.value->Some_0@;
    let y = b.value->Some_0@;
    let bits = config.xor_bitlength as nat;
    lemma2_to64();
    if bits < 15 {
        lemma_pow2_strictly_increases(bits, 15);
    }
    lemma_xor_low_of_small(x, y);
    let out = xor_of(x, y);
    let after = s.commit(config.xor_region(base, a, b, Some(out)));
    lemma_xor_inputs(config, s, a, b, out);
    lemma_xor_table_rows(bits, x, y, out);
    let table = xor_table(bits);
    let r = choose|r: int| 0 <= r < table.len() && table[r] == seq![x, y, out];
    let columns = table_columns(config.xor_lookup().inputs);
    assert(row_matches(after.tables, columns, seq![x, y, out], r)) by {
        assert forall|k: int| 0 <= k < columns.len() implies {
            &&& content(after.tables, #[trigger] columns[k]) is Some
            &&& r < content(after.tables, columns[k])->Some_0.len()
            &&& content(after.tables, columns[k])->Some_0[r] == seq![x, y, out][k]
        } by {
            assert(columns[k] == config.xor_table[k]);
        }
    }
    assert(has_row(after.tables, columns, seq![x, y, out]));
}

/// After `xor` on two numbers of which one has a value with more bits than
/// the XOR table covers, the XOR lookup has exactly one finding on the row
/// of the region: the operands are not in the table.
pub proof fn lemma_xor_region_out_of_range(
    config: FieldConfig,
    s: Synthesis,
    a: Number,
    b: Number,
)
    requires
        s.wf(),
        config.installed(s.shape),
        config.table_loaded(s.tables),
        s.matrix.rows < usize::MAX,
        a.value is Some,
        b.value is Some,
        a.value->Some_0@ >= pow2(config.xor_bitlength as nat) || b.value->Some_0@ >= pow2(
            config.xor_bitlength as nat,
        ),
    ensures
        ({
            let base = s.matrix.rows;
            let after = s.commit(config.xor_region(base, a, b, xor_view(a.value, b.value)));
            lookup_findings_at(config.xor_lookup(), after.matrix, after.tables, base) == seq![
                Finding::Lookup { name: "xor"@, row: base },
            ]
        }),
{
    let base = s.matrix.rows;
    let x = a.value->Some_0@;
    let y = b.value->Some_0@;
    let bits = config.xor_bitlength as nat;
    let out = xor_low(x, y);
    let after = s.commit(config.xor_region(base, a, b, Some(out)));
    lemma_xor_inputs(config, s, a, b, out);
    lemma_xor_table_rows(bits, x, y, out);
    let table = xor_table(bits);
    let columns = table_columns(config.xor_lookup().inputs);
    assert forall|r: int| 0 <= r implies !row_matches(after.tables, columns, seq![x, y, out], r) by {
        if row_matches(after.tables, columns, seq![x, y, out], r) {
            assert(columns[0] == config.xor_table[0]);
            assert(columns[1] == config.xor_table[1]);
            assert(columns[2] == config.xor_table[2]);
            assert(r < table.len());
            assert(table[r] =~= seq![x, y, out]);
            assert(table.contains(seq![x, y, out]));
        }
    }
}

/// No lookup is switched on by a declared simple selector.
proof fn lemma_simple_selector_guards_no_lookup(shape: Shape, selector: Selector, l: int)
    requires
        shape.wf(),
        !selector.complex,
        shape.declares_selector(selector),
        0 <= l < shape.lookups.len(),
    ensures
        shape.lookups[l].selector.index != selector.index,
{
    assert(shape.declares_selector(shape.lookups[l].selector));
    assert(shape.lookups[l].selector.complex);
}

/// What the region of `add` or of `mul` brings holds, when the two
/// operands carry in the matrix the values that they claim and the staged
/// result makes the polynomial of the region's own gate vanish.
proof fn lemma_binary_region_holds(
    config: FieldConfig,
    s: Synthesis,
    gate: GateView,
    a: Number,
    b: Number,
    out: Option<nat>,
)
    requires
        s.wf(),
        config.installed(s.shape),
        s.matrix.rows + 2 <= usize::MAX,
        gate == config.add_gate() || gate == config.mul_gate(),
        a.value is Some,
        b.value is Some,
        FieldConfig::carries(s.matrix, a),
        FieldConfig::carries(s.matrix, b),
        s.shape.equality_enabled(a.cell.column),
        s.shape.equality_enabled(b.cell.column),
        eval(
            gate.polys[0],
            s.commit(
                config.binary_region(gate.name, gate.selector, s.matrix.rows, a, b, out),
            ).matrix,
            s.matrix.rows,
        ) == Ok::<nat, Query>(0),
    ensures
        config.binary_region(gate.name, gate.selector, s.matrix.rows, a, b, out).wf(s.shape),
        region_holds(s, config.binary_region(gate.name, gate.selector, s.matrix.rows, a, b, out)),
{
    let base = s.matrix.rows;
    let staged = config.binary_region(gate.name, gate.selector, base, a, b, out);
    let after = s.commit(staged);
    let m = after.matrix;
    assert(staged.equalities[0].left == a.cell && staged.equalities[1].left == b.cell);
    assert(staged.wf(s.shape));
    lemma_commit_extends(s, staged);
    assert forall|g: int, row: usize|
        0 <= g < s.shape.gates.len() && staged.base <= row < staged.base
            + staged.height implies #[trigger] gate_holds(s.shape.gates[g], m, row) by {
        if m.enabled.contains((s.shape.gates[g].selector.index, row)) {
            assert(!s.matrix.enabled.contains((s.shape.gates[g].selector.index, row)));
            lemma_simple_selector_names_one_gate(s.shape, gate, g);
            assert(gate.polys.len() == 1);
        }
    }
    assert forall|l: int, row: usize|
        0 <= l < s.shape.lookups.len() && staged.base <= row < staged.base
            + staged.height implies #[trigger] lookup_holds(
        s.shape.lookups[l],
        m,
        s.tables,
        row,
    ) by {
        if m.enabled.contains((s.shape.lookups[l].selector.index, row)) {
            assert(!s.matrix.enabled.contains((s.shape.lookups[l].selector.index, row)));
            lemma_simple_selector_guards_no_lookup(s.shape, gate.selector, l);
        }
    }
    assert forall|i: int| 0 <= i < staged.equalities.len() implies constraint_holds(
        #[trigger] staged.equalities[i],
        m,
    ) by {
        lemma_value_persists(s.matrix, m, a.cell);
        lemma_value_persists(s.matrix, m, b.cell);
    }
}

/// `add` keeps a satisfied state satisfied, when both operands carry in
/// the matrix the values that they claim; and the sum carries its value in
/// the new state, as do the operands.
pub proof fn lemma_add_keeps_satisfied(config: FieldConfig, s: Synthesis, a: Number, b: Number)
    requires
        s.wf(),
        config.installed(s.shape),
        s.matrix.rows + 2 <= usize::MAX,
        satisfied(s.shape, s.matrix, s.equalities, s.tables),
        a.value is Some,
        b.value is Some,
        FieldConfig::carries(s.matrix, a),
        FieldConfig::carries(s.matrix, b),
        s.shape.equality_enabled(a.cell.column),
        s.shape.equality_enabled(b.cell.column),
    ensures
        ({
            let base = s.matrix.rows;
            let after = s.commit(
                config.binary_region("add"@, config.sadd, base, a, b, sum_view(a.value, b.value)),
            );
            &&& satisfied(after.shape, after.matrix, after.equalities, after.tables)
            &&& after.matrix.value(Cell { column: config.advices[0], row: (base + 1) as usize })
                == sum_view(a.value, b.value)
            &&& FieldConfig::carries(after.matrix, a)
            &&& FieldConfig::carries(after.matrix, b)
        }),
{
    let out = sum_view(a.value, b.value);
    let staged = config.binary_region("add"@, config.sadd, s.matrix.rows, a, b, out);
    lemma_add_region_is_satisfied(config, s, a, b);
    lemma_gate_findings_mean_failure(config.add_gate(), s.commit(staged).matrix, s.matrix.rows);
    lemma_add_poly_vanishes(config, s, a, b);
    lemma_binary_region_holds(config, s, config.add_gate(), a, b, out);
    lemma_commit_keeps_satisfied(s, staged);
    lemma_commit_extends(s, staged);
    lemma_value_persists(s.matrix, s.commit(staged).matrix, a.cell);
    lemma_value_persists(s.matrix, s.commit(staged).matrix, b.cell);
}

/// `mul` keeps a satisfied state satisfied, when both operands carry in
/// the matrix the values that they claim; and the product carries its value
/// in the new state, as do the operands.
pub proof fn lemma_mul_keeps_satisfied(config: FieldConfig, s: Synthesis, a: Number, b: Number)
    requires
        s.wf(),
        config.installed(s.shape),
        s.matrix.rows + 2 <= usize::MAX,
        satisfied(s.shape, s.matrix, s.equalities, s.tables),
        a.value is Some,
        b.value is Some,
        FieldConfig::carries(s.matrix, a),
        FieldConfig::carries(s.matrix, b),
        s.shape.equality_enabled(a.cell.column),
        s.shape.equality_enabled(b.cell.column),
    ensures
        ({
            let base = s.matrix.rows;
            let after = s.commit(
                config.binary_region(
                    "mul"@,
                    config.smul,
                    base,
                    a,
                    b,
                    product_view(a.value, b.value),
                ),
            );
            &&& satisfied(after.shape, after.matrix, after.equalities, after.tables)
            &&& after.matrix.value(Cell { column: config.advices[0], row: (base + 1) as usize })
                == product_view(a.value, b.value)
            &&& FieldConfig::carries(after.matrix, a)
            &&& FieldConfig::carries(after.matrix, b)
        }),
{
    let out = product_view(a.value, b.value);
    let staged = config.binary_region("mul"@, config.smul, s.matrix.rows, a, b, out);
    lemma_mul_region_is_satisfied(config, s, a, b);
    lemma_mul_poly_vanishes(config, s, a, b);
    lemma_binary_region_holds(config, s, config.mul_gate(), a, b, out);
    lemma_commit_keeps_satisfied(s, staged);
    lemma_commit_extends(s, staged);
    lemma_value_persists(s.matrix, s.commit(staged).matrix, a.cell);
    lemma_value_persists(s.matrix, s.commit(staged).matrix, b.cell);
}

/// `xor` keeps a satisfied state satisfied, when the XOR table is loaded,
/// the lookup selector guards nothing but the XOR lookup, both operands
/// carry in the matrix the values that they claim, and these values have
/// no more bits than the table covers.
pub proof fn lemma_xor_keeps_satisfied(config: FieldConfig, s: Synthesis, a: Number, b: Number)
    requires
        s.wf(),
        config.installed(s.shape),
        config.exclusive(s.shape),
        config.table_loaded(s.tables),
        s.matrix.rows < usize::MAX,
        satisfied(s.shape, s.matrix, s.equalities, s.tables),
        a.value is Some,
        b.value is Some,
        FieldConfig::carries(s.matrix, a),
        FieldConfig::carries(s.matrix, b),
        s.shape.equality_enabled(a.cell.column),
        s.shape.equality_enabled(b.cell.column),
        a.value->Some_0@ < pow2(config.xor_bitlength as nat),
        b.value->Some_0@ < pow2(config.xor_bitlength as nat),
    ensures
        ({
            let base = s.matrix.rows;
            let after = s.commit(config.xor_region(base, a, b, xor_view(a.value, b.value)));
            &&& satisfied(after.shape, after.matrix, after.equalities, after.tables)
            &&& after.matrix.value(Cell { column: config.xord, row: base }) == Some(
                xor_of(a.value->Some_0@, b.value->Some_0@),
            )
            &&& FieldConfig::carries(after.matrix, a)
            &&& FieldConfig::carries(after.matrix, b)
        }),
{
    let base = s.matrix.rows;
    let staged = config.xor_region(base, a, b, xor_view(a.value, b.value));
    let after = s.commit(staged);
    let m = after.matrix;
    lemma_xor_region_is_satisfied(config, s, a, b);
    assert(staged.equalities[0].left == a.cell && staged.equalities[1].left == b.cell);
    assert(staged.wf(s.shape));
    lemma_commit_extends(s, staged);
    lemma_value_persists(s.matrix, m, a.cell);
    lemma_value_persists(s.matrix, m, b.cell);
    assert forall|g: int, row: usize|
        0 <= g < s.shape.gates.len() && staged.base <= row < staged.base
            + staged.height implies #[trigger] gate_holds(s.shape.gates[g], m, row) by {
        if m.enabled.contains((s.shape.gates[g].selector.index, row)) {
            assert(!s.matrix.enabled.contains((s.shape.gates[g].selector.index, row)));
        }
    }
    assert forall|l: int, row: usize|
        0 <= l < s.shape.lookups.len() && staged.base <= row < staged.base
            + staged.height implies #[trigger] lookup_holds(
        s.shape.lookups[l],
        m,
        s.tables,
        row,
    ) by {
        if m.enabled.contains((s.shape.lookups[l].selector.index, row)) {
            assert(!s.matrix.enabled.contains((s.shape.lookups[l].selector.index, row)));
            assert(s.shape.lookups[l] == config.xor_lookup());
            lemma_lookup_findings_mean_failure(config.xor_lookup(), m, s.tables, base);
        }
    }
    lemma_commit_keeps_satisfied(s, staged);
}

/// What a region without selector rows brings holds as soon as its
/// constraints hold: no gate and no lookup is switched on in it.
proof fn lemma_quiet_region_holds(s: Synthesis, staged: Staged)
    requires
        s.wf(),
        staged.wf(s.shape),
        staged.base == s.matrix.rows,
        staged.enabled == Set::<(usize, usize)>::empty(),
        forall|i: int|
            0 <= i < staged.equalities.len() ==> constraint_holds(
                #[trigger] staged.equalities[i],
                s.commit(staged).matrix,
            ),
    ensures
        region_holds(s, staged),
{
    let m = s.commit(staged).matrix;
    assert forall|g: int, row: usize|
        0 <= g < s.shape.gates.len() && staged.base <= row < staged.base
            + staged.height implies #[trigger] gate_holds(s.shape.gates[g], m, row) by {
        assert(!s.matrix.enabled.contains((s.shape.gates[g].selector.index, row)));
    }
    assert forall|l: int, row: usize|
        0 <= l < s.shape.lookups.len() && staged.base <= row < staged.base
            + staged.height implies #[trigger] lookup_holds(
        s.shape.lookups[l],
        m,
        s.tables,
        row,
    ) by {
        assert(!s.matrix.enabled.contains((s.shape.lookups[l].selector.index, row)));
    }
}

/// `load_private` keeps a satisfied state satisfied, and the loaded number
/// carries its value, or the lack of one, in the new state.
pub proof fn lemma_load_private_keeps_satisfied(
    config: FieldConfig,
    s: Synthesis,
    value: Option<nat>,
)
    requires
        s.wf(),
        config.installed(s.shape),
        s.matrix.rows < usize::MAX,
        satisfied(s.shape, s.matrix, s.equalities, s.tables),
    ensures
        ({
            let after = s.commit(config.private_region(s.matrix.rows, value));
            &&& satisfied(after.shape, after.matrix, after.equalities, after.tables)
            &&& after.matrix.value(Cell { column: config.advices[0], row: s.matrix.rows })
                == value
        }),
{
    let staged = config.private_region(s.matrix.rows, value);
    lemma_quiet_region_holds(s, staged);
    lemma_commit_keeps_satisfied(s, staged);
}

/// `load_constant` keeps a satisfied state satisfied, and the loaded
/// number carries the constant in the new state.
pub proof fn lemma_load_constant_keeps_satisfied(config: FieldConfig, s: Synthesis, constant: nat)
    requires
        s.wf(),
        config.installed(s.shape),
        s.matrix.rows < usize::MAX,
        satisfied(s.shape, s.matrix, s.equalities, s.tables),
    ensures
        ({
            let after = s.commit(config.constant_region(s.matrix.rows, constant));
            &&& satisfied(after.shape, after.matrix, after.equalities, after.tables)
            &&& after.matrix.value(Cell { column: config.advices[0], row: s.matrix.rows })
                == Some(constant)
        }),
{
    let staged = config.constant_region(s.matrix.rows, constant);
    lemma_quiet_region_holds(s, staged);
    lemma_commit_keeps_satisfied(s, staged);
}

/// `load_public` keeps a satisfied state satisfied, and the loaded number
/// carries the public input in the new state.
pub proof fn lemma_load_public_keeps_satisfied(config: FieldConfig, s: Synthesis, row: usize)
    requires
        s.wf(),
        config.installed(s.shape),
        s.matrix.rows < usize::MAX,
        satisfied(s.shape, s.matrix, s.equalities, s.tables),
        s.matrix.value(Cell { column: config.instance, row }) is Some,
    ensures
        ({
            let value = s.matrix.value(Cell { column: config.instance, row })->Some_0;
            let after = s.commit(config.public_region(s.matrix.rows, row, value));
            &&& satisfied(after.shape, after.matrix, after.equalities, after.tables)
            &&& after.matrix.value(Cell { column: config.advices[0], row: s.matrix.rows })
                == Some(value)
        }),
{
    let value = s.matrix.value(Cell { column: config.instance, row })->Some_0;
    let staged = config.public_region(s.matrix.rows, row, value);
    lemma_quiet_region_holds(s, staged);
    lemma_commit_keeps_satisfied(s, staged);
}

/// The polynomial of the addition gate vanishes on the first row of a
/// region of `add`.
proof fn lemma_add_poly_vanishes(config: FieldConfig, s: Synthesis, a: Number, b: Number)
    requires
        s.wf(),
        config.installed(s.shape),
        s.matrix.rows + 2 <= usize::MAX,
        a.value is Some,
        b.value is Some,
    ensures
        eval(
            config.add_poly(),
            s.commit(
                config.binary_region(
                    "add"@,
                    config.sadd,
                    s.matrix.rows,
                    a,
                    b,
                    sum_view(a.value, b.value),
                ),
            ).matrix,
            s.matrix.rows,
        ) == Ok::<nat, Query>(0),
{
    let base = s.matrix.rows;
    let staged = config.binary_region("add"@, config.sadd, base, a, b, sum_view(a.value, b.value));
    let m = s.commit(staged).matrix;
    lemma_add_region_is_satisfied(config, s, a, b);
    let g = choose|g: int| 0 <= g < s.shape.gates.len() && s.shape.gates[g] == config.add_gate();
    lemma_concat_is_nothing(s.shape.gates.len(), gate_part(s.shape.gates, m, base), g);
    lemma_gate_findings_mean_failure(config.add_gate(), m, base);
    assert(config.add_gate().polys[0] == config.add_poly());
}

/// The polynomial of the multiplication gate vanishes on the first row of
/// a region of `mul`.
proof fn lemma_mul_poly_vanishes(config: FieldConfig, s: Synthesis, a: Number, b: Number)
    requires
        s.wf(),
        config.installed(s.shape),
        s.matrix.rows + 2 <= usize::MAX,
        a.value is Some,
        b.value is Some,
    ensures
        eval(
            config.mul_poly(),
            s.commit(
                config.binary_region(
                    "mul"@,
                    config.smul,
                    s.matrix.rows,
                    a,
                    b,
                    product_view(a.value, b.value),
                ),
            ).matrix,
            s.matrix.rows,
        ) == Ok::<nat, Query>(0),
{
    let base = s.matrix.rows;
    let staged = config.binary_region(
        "mul"@,
        config.smul,
        base,
        a,
        b,
        product_view(a.value, b.value),
    );
    let m = s.commit(staged).matrix;
    lemma_mul_region_is_satisfied(config, s, a, b);
    let g = choose|g: int| 0 <= g < s.shape.gates.len() && s.shape.gates[g] == config.mul_gate();
    lemma_concat_is_nothing(s.shape.gates.len(), gate_part(s.shape.gates, m, base), g);
    lemma_gate_findings_mean_failure(config.mul_gate(), m, base);
    assert(config.mul_gate().polys[0] == config.mul_poly());
}

} // verus!
