//! A chip that declares a multiplication gate, an addition gate and a
//! lookup-backed XOR on a constraint system, and lays out one region for
//! each operation on numbers.
use crate::assignment::{value_view, Matrix};
use crate::column::{Cell, Column, ColumnKind, Selector};
use crate::constraint_system::{
    well_scoped, ConstraintSystem, GateView, LookupInput, LookupView, Shape,
};
use crate::equality::EqualityConstraint;
use crate::error::{ConfigurationError, Error, SynthesisError};
use crate::expression::{Expression, Query};
use crate::field::{field_add, field_mul, FieldElement};
use crate::layouter::{Layouter, Staged, Synthesis};
use crate::table::{
    all_vacant, build_xor_table, content, distinct, table_column, xor_table, MAX_XOR_BITS,
};
use vstd::prelude::*;

verus! {

/// The columns and selectors that the chip works with.
#[derive(Clone, Copy, Debug, PartialEq, Eq)]
pub struct FieldConfig {
    /// The two witness columns: the operands of an operation.
    pub advices: [Column; 2],
    /// The column of public inputs.
    pub instance: Column,
    /// Switches the multiplication gate on.
    pub smul: Selector,
    /// Switches the addition gate on.
    pub sadd: Selector,
    /// The column that constants are loaded from.
    pub constant: Column,
    /// Switches the XOR lookup on.
    pub stable: Selector,
    /// The number of bits of the operands that the XOR table covers.
    pub xor_bitlength: usize,
    /// The three table columns: left operand, right operand, their XOR.
    pub xor_table: [Column; 3],
    /// The witness column that receives the result of an XOR.
    pub xord: Column,
}

/// A value in the circuit: the cell that holds it and, unless this is a
/// pass over the shape alone, the value itself.
#[derive(Clone, Copy, Debug, PartialEq, Eq)]
pub struct Number {
    pub cell: Cell,
    pub value: Option<FieldElement>,
}

/// The query of `column` at the row `rotation` below the current one.
pub open spec fn query(column: Column, rotation: usize) -> Expression {
    Expression::Query(Query { column, rotation })
}

impl FieldConfig {
    /// The polynomial of the multiplication gate: `lhs * rhs - out`, with
    /// `out` one row below the operands.
    pub open spec fn mul_poly(self) -> Expression {
        Expression::Difference(
            Box::new(
                Expression::Product(
                    Box::new(query(self.advices[0], 0)),
                    Box::new(query(self.advices[1], 0)),
                ),
            ),
            Box::new(query(self.advices[0], 1)),
        )
    }

    /// The polynomial of the addition gate: `lhs + rhs - out`, with `out`
    /// one row below the operands.
    pub open spec fn add_poly(self) -> Expression {
        Expression::Difference(
            Box::new(
                Expression::Sum(
                    Box::new(query(self.advices[0], 0)),
                    Box::new(query(self.advices[1], 0)),
                ),
            ),
            Box::new(query(self.advices[0], 1)),
        )
    }

    /// Gate `mul`, which `smul` switches on.
    pub open spec fn mul_gate(self) -> GateView {
        GateView { name: "mul"@, selector: self.smul, polys: seq![self.mul_poly()] }
    }

    /// Gate `add`, which `sadd` switches on.
    pub open spec fn add_gate(self) -> GateView {
        GateView { name: "add"@, selector: self.sadd, polys: seq![self.add_poly()] }
    }

    /// The lookup of (left operand, right operand, result) in the three
    /// table columns.
    pub open spec fn xor_lookup(self) -> LookupView {
        LookupView {
            name: "xor"@,
            selector: self.stable,
            inputs: seq![
                LookupInput { input: query(self.advices[0], 0), table: self.xor_table[0] },
                LookupInput { input: query(self.advices[1], 0), table: self.xor_table[1] },
                LookupInput { input: query(self.xord, 0), table: self.xor_table[2] },
            ],
        }
    }

    /// Whether the columns are declared in the shape, each with the kind
    /// that the chip needs.
    pub open spec fn columns_declared(self, shape: Shape) -> bool {
        &&& self.instance.kind == ColumnKind::Instance && shape.declares(self.instance)
        &&& self.constant.kind == ColumnKind::Fixed && shape.declares(self.constant)
        &&& self.advices[0].kind == ColumnKind::Advice && shape.declares(self.advices[0])
        &&& self.advices[1].kind == ColumnKind::Advice && shape.declares(self.advices[1])
        &&& self.xord.kind == ColumnKind::Advice && shape.declares(self.xord)
        &&& self.xor_table[0].kind == ColumnKind::LookupTable && shape.declares(self.xor_table[0])
        &&& self.xor_table[1].kind == ColumnKind::LookupTable && shape.declares(self.xor_table[1])
        &&& self.xor_table[2].kind == ColumnKind::LookupTable && shape.declares(self.xor_table[2])
    }

    /// Whether the lookup selector guards the XOR lookup and nothing else.
    /// It does so when the chip has just been configured; a later
    /// declaration may share the selector, which is complex.
    pub open spec fn exclusive(self, shape: Shape) -> bool {
        &&& forall|g: int|
            0 <= g < shape.gates.len() ==> (#[trigger] shape.gates[g]).selector.index
                != self.stable.index
        &&& forall|l: int|
            0 <= l < shape.lookups.len() && (#[trigger] shape.lookups[l]).selector.index
                == self.stable.index ==> shape.lookups[l] == self.xor_lookup()
    }

    /// Whether the number's cell carries the number's value in the matrix.
    pub open spec fn carries(m: Matrix, number: Number) -> bool {
        m.value(number.cell) == value_view(number.value)
    }

    /// Whether the three table columns hold the XOR table for operands of
    /// as many bits as the chip was configured for.
    pub open spec fn table_loaded(self, tables: Seq<Option<Seq<nat>>>) -> bool {
        forall|k: int|
            0 <= k < 3 ==> content(tables, #[trigger] self.xor_table[k]) == Some(
                table_column(xor_table(self.xor_bitlength as nat), k),
            )
    }

    /// Whether the three witness columns are three different columns.
    pub open spec fn witnesses_distinct(self) -> bool {
        &&& self.advices[0] != self.advices[1]
        &&& self.advices[0] != self.xord
        &&& self.advices[1] != self.xord
    }

    /// Whether the shape holds what `configure` declares for this
    /// configuration: the columns with equality enabled, the selectors, the
    /// two gates and the lookup.
    pub open spec fn installed(self, shape: Shape) -> bool {
        &&& self.columns_declared(shape)
        &&& self.witnesses_distinct()
        &&& shape.equality_enabled(self.instance)
        &&& shape.equality_enabled(self.constant)
        &&& shape.equality_enabled(self.advices[0])
        &&& shape.equality_enabled(self.advices[1])
        &&& shape.equality_enabled(self.xord)
        &&& !self.smul.complex && shape.declares_selector(self.smul)
        &&& !self.sadd.complex && shape.declares_selector(self.sadd)
        &&& self.stable.complex && shape.declares_selector(self.stable)
        &&& shape.gates.contains(self.mul_gate())
        &&& shape.gates.contains(self.add_gate())
        &&& shape.lookups.contains(self.xor_lookup())
        &&& self.xor_bitlength <= MAX_XOR_BITS
    }
}

/// The sum of two optional residues, if both are there.
pub open spec fn sum_of(a: Option<nat>, b: Option<nat>) -> Option<nat> {
    match (a, b) {
        (Some(x), Some(y)) => Some(field_add(x, y)),
        _ => None,
    }
}

/// The product of two optional residues, if both are there.
pub open spec fn product_of(a: Option<nat>, b: Option<nat>) -> Option<nat> {
    match (a, b) {
        (Some(x), Some(y)) => Some(field_mul(x, y)),
        _ => None,
    }
}

/// The XOR of the low 32 bits of two optional residues, if both are there.
pub open spec fn xor_low_of(a: Option<nat>, b: Option<nat>) -> Option<nat> {
    match (a, b) {
        (Some(x), Some(y)) => Some(xor_low(x, y)),
        _ => None,
    }
}

/// The sum of two values, if both are there.
pub open spec fn sum_view(a: Option<FieldElement>, b: Option<FieldElement>) -> Option<nat> {
    sum_of(value_view(a), value_view(b))
}

/// The product of two values, if both are there.
pub open spec fn product_view(a: Option<FieldElement>, b: Option<FieldElement>) -> Option<nat> {
    product_of(value_view(a), value_view(b))
}

/// The bitwise XOR of the low 32 bits of two residues.
pub open spec fn xor_low(x: nat, y: nat) -> nat {
    ((x % 0x1_0000_0000) as u32 ^ (y % 0x1_0000_0000) as u32) as nat
}

/// The XOR of the low 32 bits of two values, if both are there.
pub open spec fn xor_view(a: Option<FieldElement>, b: Option<FieldElement>) -> Option<nat> {
    xor_low_of(value_view(a), value_view(b))
}

impl FieldConfig {
    /// The region of `load_private`: one row, the value in the first
    /// witness column.
    pub open spec fn private_region(self, base: usize, value: Option<nat>) -> Staged {
        Staged {
            name: "load private"@,
            base,
            height: 1,
            cells: Map::empty().insert(Cell { column: self.advices[0], row: base }, value),
            enabled: Set::empty(),
            equalities: Seq::empty(),
        }
    }

    /// The region of `load_constant`: one row, the constant in the constant
    /// column and in the first witness column, the two cells constrained
    /// equal.
    pub open spec fn constant_region(self, base: usize, constant: nat) -> Staged {
        Staged {
            name: "load constant"@,
            base,
            height: 1,
            cells: Map::empty().insert(
                Cell { column: self.constant, row: base },
                Some(constant),
            ).insert(Cell { column: self.advices[0], row: base }, Some(constant)),
            enabled: Set::empty(),
            equalities: seq![
                EqualityConstraint {
                    left: Cell { column: self.constant, row: base },
                    right: Cell { column: self.advices[0], row: base },
                },
            ],
        }
    }

    /// The region of `load_public`: one row, the public input in the
    /// first witness column, constrained equal to its instance cell.
    pub open spec fn public_region(self, base: usize, row: usize, value: nat) -> Staged {
        Staged {
            name: "load public"@,
            base,
            height: 1,
            cells: Map::empty().insert(Cell { column: self.advices[0], row: base }, Some(value)),
            enabled: Set::empty(),
            equalities: seq![
                EqualityConstraint {
                    left: Cell { column: self.instance, row },
                    right: Cell { column: self.advices[0], row: base },
                },
            ],
        }
    }

    /// The region of `add` and of `mul`: the operands side by side in row
    /// 0, where the selector is on, each constrained equal to the cell it
    /// was copied from, and the result below the left operand in row 1.
    pub open spec fn binary_region(
        self,
        name: Seq<char>,
        selector: Selector,
        base: usize,
        a: Number,
        b: Number,
        out: Option<nat>,
    ) -> Staged {
        Staged {
            name,
            base,
            height: 2,
            cells: Map::empty().insert(
                Cell { column: self.advices[0], row: base },
                value_view(a.value),
            ).insert(Cell { column: self.advices[1], row: base }, value_view(b.value)).insert(
                Cell { column: self.advices[0], row: (base + 1) as usize },
                out,
            ),
            enabled: Set::empty().insert((selector.index, base)),
            equalities: seq![
                EqualityConstraint { left: a.cell, right: Cell { column: self.advices[0], row: base } },
                EqualityConstraint { left: b.cell, right: Cell { column: self.advices[1], row: base } },
            ],
        }
    }

    /// The region of `xor`: one row, where the lookup selector is on, with
    /// the operands side by side, each constrained equal to the cell it
    /// was copied from, and the result in the result column.
    pub open spec fn xor_region(self, base: usize, a: Number, b: Number, out: Option<nat>) -> Staged {
        Staged {
            name: "xor"@,
            base,
            height: 1,
            cells: Map::empty().insert(
                Cell { column: self.advices[0], row: base },
                value_view(a.value),
            ).insert(Cell { column: self.advices[1], row: base }, value_view(b.value)).insert(
                Cell { column: self.xord, row: base },
                out,
            ),
            enabled: Set::empty().insert((self.stable.index, base)),
            equalities: seq![
                EqualityConstraint { left: a.cell, right: Cell { column: self.advices[0], row: base } },
                EqualityConstraint { left: b.cell, right: Cell { column: self.advices[1], row: base } },
            ],
        }
    }
}

/// The fault, if any, that keeps a chip from being configured on a shape.
pub open spec fn configure_fault(shape: Shape, config: FieldConfig) -> Option<Error> {
    if shape.frozen {
        Some(Error::Configuration(ConfigurationError::Frozen))
    } else if !config.columns_declared(shape) {
        Some(Error::Configuration(ConfigurationError::UndeclaredColumn))
    } else if shape.equality_enabled(config.instance) || shape.equality_enabled(config.constant)
        || shape.equality_enabled(config.advices[0]) || shape.equality_enabled(config.advices[1])
        || shape.equality_enabled(config.xord) || !config.witnesses_distinct() {
        Some(Error::Configuration(ConfigurationError::DuplicateEquality))
    } else {
        None
    }
}

/// The configuration that `configure` hands out on a shape: the columns it
/// was given and the three selectors it declares.
pub open spec fn config_on(
    shape: Shape,
    advices: [Column; 2],
    instance: Column,
    constant: Column,
    xor_size: usize,
    xor_table: [Column; 3],
    xord: Column,
) -> FieldConfig {
    FieldConfig {
        advices,
        instance,
        smul: Selector { index: shape.selectors.len() as usize, complex: false },
        sadd: Selector { index: (shape.selectors.len() + 1) as usize, complex: false },
        constant,
        stable: Selector { index: (shape.selectors.len() + 2) as usize, complex: true },
        xor_bitlength: xor_size,
        xor_table,
        xord,
    }
}

/// The shape after a chip has been configured on it.
pub open spec fn configured(shape: Shape, config: FieldConfig) -> Shape {
    Shape {
        advice: shape.advice.update(config.advices[0].index as int, true).update(
            config.advices[1].index as int,
            true,
        ).update(config.xord.index as int, true),
        fixed: shape.fixed.update(config.constant.index as int, true),
        instance: shape.instance.update(config.instance.index as int, true),
        selectors: shape.selectors.push(false).push(false).push(true),
        gates: shape.gates.push(config.mul_gate()).push(config.add_gate()),
        lookups: shape.lookups.push(config.xor_lookup()),
        ..shape
    }
}

/// The chip: the operations on numbers, laid out with one configuration.
#[derive(Debug)]
pub struct FieldChip {
    config: FieldConfig,
}

impl View for FieldChip {
    type V = FieldConfig;

    closed spec fn view(&self) -> FieldConfig {
        self.config
    }
}

impl FieldChip {
    /// A chip that works with the given configuration.
    pub fn construct(config: FieldConfig) -> (chip: FieldChip)
        ensures
            chip@ == config,
    {
        FieldChip { config }
    }

    /// The configuration that the chip works with.
    pub fn config(&self) -> (config: &FieldConfig)
        ensures
            *config == self@,
    {
        &self.config
    }

    /// Declares on the constraint system what the chip needs: equality on
    /// the instance column, the constant column and the three witness
    /// columns; the selectors; the gates `mul` and `add`; the lookup `xor`.
    /// Nothing is declared unless everything can be.
    pub fn configure(
        meta: &mut ConstraintSystem,
        advices: [Column; 2],
        instance: Column,
        constant: Column,
        xor_size: usize,
        xor_table: [Column; 3],
        xord: Column,
    ) -> (r: Result<FieldConfig, Error>)
        requires
            old(meta)@.wf(),
            xor_size <= MAX_XOR_BITS,
        ensures
            final(meta)@.wf(),
            r == match configure_fault(
                old(meta)@,
                config_on(old(meta)@, advices, instance, constant, xor_size, xor_table, xord),
            ) {
                Some(e) => Err::<FieldConfig, Error>(e),
                None => Ok(
                    config_on(old(meta)@, advices, instance, constant, xor_size, xor_table, xord),
                ),
            },
            r is Err ==> final(meta)@ == old(meta)@,
            r is Ok ==> final(meta)@ == configured(old(meta)@, r->Ok_0) && r->Ok_0.installed(
                final(meta)@,
            ) && r->Ok_0.exclusive(final(meta)@),
    {
        if meta.is_frozen() {
            return Err(Error::Configuration(ConfigurationError::Frozen));
        }
        let declared = is_declared(meta, instance, ColumnKind::Instance) && is_declared(
            meta,
            constant,
            ColumnKind::Fixed,
        ) && is_declared(meta, advices[0], ColumnKind::Advice) && is_declared(
            meta,
            advices[1],
            ColumnKind::Advice,
        ) && is_declared(meta, xord, ColumnKind::Advice) && is_declared(
            meta,
            xor_table[0],
            ColumnKind::LookupTable,
        ) && is_declared(meta, xor_table[1], ColumnKind::LookupTable) && is_declared(
            meta,
            xor_table[2],
            ColumnKind::LookupTable,
        );
        if !declared {
            return Err(Error::Configuration(ConfigurationError::UndeclaredColumn));
        }
        if meta.equality_enabled(instance) || meta.equality_enabled(constant)
            || meta.equality_enabled(advices[0]) || meta.equality_enabled(advices[1])
            || meta.equality_enabled(xord) || advices[0] == advices[1] || advices[0] == xord
            || advices[1] == xord {
            return Err(Error::Configuration(ConfigurationError::DuplicateEquality));
        }
        meta.enable_equality(instance)?;
        meta.enable_equality(constant)?;
        meta.enable_equality(advices[0])?;
        meta.enable_equality(advices[1])?;
        meta.enable_equality(xord)?;
        proof {
            let shape = meta@;
            assert(shape.selectors == old(meta)@.selectors);
            assert(shape.gates == old(meta)@.gates);
            assert(shape.lookups == old(meta)@.lookups);
            assert(shape.tables == old(meta)@.tables);
            assert(shape.advice =~= configured(
                old(meta)@,
                config_on(old(meta)@, advices, instance, constant, xor_size, xor_table, xord),
            ).advice);
        }
        let smul = meta.declare_selector(false)?;
        let sadd = meta.declare_selector(false)?;
        let stable = meta.declare_selector(true)?;
        let config = FieldConfig {
            advices,
            instance,
            smul,
            sadd,
            constant,
            stable,
            xor_bitlength: xor_size,
            xor_table,
            xord,
        };

        let mut mul_polys: Vec<Expression> = Vec::new();
        mul_polys.push(
            Expression::cur(advices[0]).times(Expression::cur(advices[1])).minus(
                Expression::next(advices[0]),
            ),
        );
        proof {
            let shape = meta@;
            assert(mul_polys@ =~= seq![config.mul_poly()]);
            assert(shape.gates == old(meta)@.gates);
            assert(smul.index == old(meta)@.selectors.len());
            assert forall|i: int| 0 <= i < shape.gates.len() implies (
            #[trigger] shape.gates[i]).selector != smul by {
                assert(old(meta)@.declares_selector(old(meta)@.gates[i].selector));
            }
            assert(!shape.guards_a_gate(smul));
            assert(well_scoped(query(advices[0], 0), shape));
            assert(well_scoped(query(advices[1], 0), shape));
            assert(well_scoped(query(advices[0], 1), shape));
            assert(well_scoped(
                Expression::Product(
                    Box::new(query(advices[0], 0)),
                    Box::new(query(advices[1], 0)),
                ),
                shape,
            ));
            assert(well_scoped(config.mul_poly(), shape));
            assert(shape.all_well_scoped(mul_polys@));
        }
        meta.create_gate("mul", smul, mul_polys)?;

        let mut add_polys: Vec<Expression> = Vec::new();
        add_polys.push(
            Expression::cur(advices[0]).plus(Expression::cur(advices[1])).minus(
                Expression::next(advices[0]),
            ),
        );
        proof {
            let shape = meta@;
            assert(add_polys@ =~= seq![config.add_poly()]);
            assert(shape.gates == old(meta)@.gates.push(config.mul_gate()));
            assert forall|i: int| 0 <= i < shape.gates.len() implies (
            #[trigger] shape.gates[i]).selector != sadd by {
                if i < old(meta)@.gates.len() {
                    assert(old(meta)@.declares_selector(old(meta)@.gates[i].selector));
                }
            }
            assert(well_scoped(query(advices[0], 0), shape));
            assert(well_scoped(query(advices[1], 0), shape));
            assert(well_scoped(query(advices[0], 1), shape));
            assert(well_scoped(
                Expression::Sum(Box::new(query(advices[0], 0)), Box::new(query(advices[1], 0))),
                shape,
            ));
            assert(well_scoped(config.add_poly(), shape));
            assert(shape.all_well_scoped(add_polys@));
        }
        meta.create_gate("add", sadd, add_polys)?;

        let mut inputs: Vec<LookupInput> = Vec::new();
        inputs.push(LookupInput { input: Expression::cur(advices[0]), table: xor_table[0] });
        inputs.push(LookupInput { input: Expression::cur(advices[1]), table: xor_table[1] });
        inputs.push(LookupInput { input: Expression::cur(xord), table: xor_table[2] });
        proof {
            let shape = meta@;
            assert(inputs@ =~= config.xor_lookup().inputs);
            assert(well_scoped(query(advices[0], 0), shape));
            assert(well_scoped(query(advices[1], 0), shape));
            assert(well_scoped(query(xord, 0), shape));
            assert(shape.inputs_well_scoped(inputs@));
        }
        meta.add_lookup("xor", stable, inputs)?;
        proof {
            let shape = meta@;
            let target = configured(old(meta)@, config);
            assert(shape.advice =~= target.advice);
            assert(shape.fixed =~= target.fixed);
            assert(shape.instance =~= target.instance);
            assert(shape.selectors =~= target.selectors);
            assert(shape.gates =~= target.gates);
            assert(shape.lookups =~= target.lookups);
            assert(shape.gates[shape.gates.len() - 2] == config.mul_gate());
            assert(shape.gates[shape.gates.len() - 1] == config.add_gate());
            assert(shape.lookups[shape.lookups.len() - 1] == config.xor_lookup());
            assert forall|g: int| 0 <= g < shape.gates.len() implies (
            #[trigger] shape.gates[g]).selector.index != stable.index by {
                if g < old(meta)@.gates.len() {
                    assert(old(meta)@.declares_selector(old(meta)@.gates[g].selector));
                }
            }
            assert forall|l: int|
                0 <= l < shape.lookups.len() && (#[trigger] shape.lookups[l]).selector.index
                    == stable.index implies shape.lookups[l] == config.xor_lookup() by {
                if l < old(meta)@.lookups.len() {
                    assert(old(meta)@.declares_selector(old(meta)@.lookups[l].selector));
                }
            }
        }
        Ok(config)
    }
}

impl FieldChip {
    /// Builds the XOR table for operands of as many bits as the chip was
    /// configured for, and loads it into the three table columns: left
    /// operand, right operand, their XOR.
    pub fn load_xor_table(&self, layouter: &mut Layouter) -> (r: Result<(), Error>)
        requires
            old(layouter)@.wf(),
            self@.installed(old(layouter)@.shape),
        ensures
            final(layouter)@.wf(),
            old(layouter)@.matrix.extended_by(final(layouter)@.matrix),
            r == if !distinct(self@.xor_table@) || !all_vacant(
                old(layouter)@.tables,
                self@.xor_table@,
            ) {
                Err::<(), Error>(Error::Synthesis(SynthesisError::CellAlreadyAssigned))
            } else {
                Ok(())
            },
            r is Err ==> final(layouter)@ == old(layouter)@,
            r is Ok ==> {
                &&& final(layouter)@ == (Synthesis {
                    tables: final(layouter)@.tables,
                    ..old(layouter)@
                })
                &&& self@.table_loaded(final(layouter)@.tables)
                &&& forall|c: Column|
                    !self@.xor_table@.contains(c) ==> content(final(layouter)@.tables, c)
                        == content(old(layouter)@.tables, c)
            },
    {
        let table = build_xor_table(self.config.xor_bitlength);
        let mut columns: Vec<Column> = Vec::new();
        columns.push(self.config.xor_table[0]);
        columns.push(self.config.xor_table[1]);
        columns.push(self.config.xor_table[2]);
        proof {
            assert(columns@ =~= self@.xor_table@);
        }
        layouter.assign_table(&columns, &table)
    }

    /// Loads a private input, or its absence in a pass over the shape
    /// alone, into a fresh cell of the first witness column.
    pub fn load_private(&self, layouter: &mut Layouter, value: Option<FieldElement>) -> (r: Result<
        Number,
        Error,
    >)
        requires
            old(layouter)@.wf(),
            self@.installed(old(layouter)@.shape),
            old(layouter)@.matrix.rows < usize::MAX,
        ensures
            final(layouter)@.wf(),
            old(layouter)@.matrix.extended_by(final(layouter)@.matrix),
            r is Ok,
            r->Ok_0.cell == (Cell { column: self@.advices[0], row: old(layouter)@.matrix.rows }),
            value_view(r->Ok_0.value) == value_view(value),
            final(layouter)@ == old(layouter)@.commit(
                self@.private_region(old(layouter)@.matrix.rows, value_view(value)),
            ),
    {
        let mut region = layouter.open_region("load private");
        let cell = region.assign_advice(layouter, self.config.advices[0], 0, value)?;
        proof {
            assert(region@.cells =~= self@.private_region(
                layouter@.matrix.rows,
                value_view(value),
            ).cells);
        }
        layouter.close_region(region);
        Ok(Number { cell, value })
    }

    /// Loads a constant: the constant column holds it, a fresh cell of the
    /// first witness column copies it, and the two are constrained equal.
    pub fn load_constant(&self, layouter: &mut Layouter, constant: FieldElement) -> (r: Result<
        Number,
        Error,
    >)
        requires
            old(layouter)@.wf(),
            self@.installed(old(layouter)@.shape),
            old(layouter)@.matrix.rows < usize::MAX,
        ensures
            final(layouter)@.wf(),
            old(layouter)@.matrix.extended_by(final(layouter)@.matrix),
            r is Ok,
            r->Ok_0.cell == (Cell { column: self@.advices[0], row: old(layouter)@.matrix.rows }),
            value_view(r->Ok_0.value) == Some(constant@),
            final(layouter)@ == old(layouter)@.commit(
                self@.constant_region(old(layouter)@.matrix.rows, constant@),
            ),
    {
        let mut region = layouter.open_region("load constant");
        let source = region.assign_fixed(layouter, self.config.constant, 0, constant)?;
        let cell = region.assign_advice(layouter, self.config.advices[0], 0, Some(constant))?;
        region.constrain_equal(layouter, source, cell)?;
        proof {
            let target = self@.constant_region(layouter@.matrix.rows, constant@);
            assert(region@.cells =~= target.cells);
            assert(region@.equalities =~= target.equalities);
        }
        layouter.close_region(region);
        Ok(Number { cell, value: Some(constant) })
    }

    /// Loads the public input at `row` of the instance column into a fresh
    /// cell of the first witness column, constrained equal to it. Fails
    /// when the instance column has no such row.
    pub fn load_public(&self, layouter: &mut Layouter, row: usize) -> (r: Result<Number, Error>)
        requires
            old(layouter)@.wf(),
            self@.installed(old(layouter)@.shape),
            old(layouter)@.matrix.rows < usize::MAX,
        ensures
            final(layouter)@.wf(),
            old(layouter)@.matrix.extended_by(final(layouter)@.matrix),
            match old(layouter)@.matrix.value(Cell { column: self@.instance, row }) {
                None => r == Err::<Number, Error>(
                    Error::Synthesis(SynthesisError::InstanceOutOfBounds),
                ) && final(layouter)@ == old(layouter)@,
                Some(value) => {
                    &&& r is Ok
                    &&& r->Ok_0.cell == (Cell {
                        column: self@.advices[0],
                        row: old(layouter)@.matrix.rows,
                    })
                    &&& value_view(r->Ok_0.value) == Some(value)
                    &&& final(layouter)@ == old(layouter)@.commit(
                        self@.public_region(old(layouter)@.matrix.rows, row, value),
                    )
                },
            },
    {
        let mut region = layouter.open_region("load public");
        let (cell, value) = region.copy_from_instance(
            layouter,
            self.config.instance,
            row,
            self.config.advices[0],
            0,
        )?;
        proof {
            let target = self@.public_region(layouter@.matrix.rows, row, value@);
            assert(region@.cells =~= target.cells);
            assert(region@.equalities =~= target.equalities);
        }
        layouter.close_region(region);
        Ok(Number { cell, value: Some(value) })
    }

    /// Constrains a number to equal the public input at `row` of the
    /// instance column.
    pub fn expose_public(&self, layouter: &mut Layouter, num: Number, row: usize) -> (r: Result<
        (),
        Error,
    >)
        requires
            old(layouter)@.wf(),
            self@.installed(old(layouter)@.shape),
        ensures
            final(layouter)@.wf(),
            old(layouter)@.matrix.extended_by(final(layouter)@.matrix),
            r == if !old(layouter)@.shape.equality_enabled(num.cell.column) {
                Err::<(), Error>(Error::Configuration(ConfigurationError::EqualityNotEnabled))
            } else if old(layouter)@.matrix.value(Cell { column: self@.instance, row }) is None {
                Err(Error::Synthesis(SynthesisError::InstanceOutOfBounds))
            } else {
                Ok(())
            },
            r is Err ==> final(layouter)@ == old(layouter)@,
            r is Ok ==> final(layouter)@ == (Synthesis {
                equalities: old(layouter)@.equalities.push(
                    EqualityConstraint {
                        left: num.cell,
                        right: Cell { column: self@.instance, row },
                    },
                ),
                ..old(layouter)@
            }),
    {
        layouter.constrain_instance(num.cell, self.config.instance, row)
    }

    /// Lays out the region that `add` and `mul` share.
    fn operate(
        &self,
        layouter: &mut Layouter,
        name: &str,
        selector: Selector,
        a: Number,
        b: Number,
        out: Option<FieldElement>,
    ) -> (r: Result<Number, Error>)
        requires
            old(layouter)@.wf(),
            self@.installed(old(layouter)@.shape),
            old(layouter)@.matrix.rows + 2 <= usize::MAX,
            old(layouter)@.shape.declares_selector(selector),
        ensures
            final(layouter)@.wf(),
            old(layouter)@.matrix.extended_by(final(layouter)@.matrix),
            r is Err <==> !(old(layouter)@.shape.equality_enabled(a.cell.column) && old(
                layouter,
            )@.shape.equality_enabled(b.cell.column)),
            r is Err ==> r == Err::<Number, Error>(
                Error::Configuration(ConfigurationError::EqualityNotEnabled),
            ) && final(layouter)@ == old(layouter)@,
            r is Ok ==> {
                &&& r->Ok_0.cell == (Cell {
                    column: self@.advices[0],
                    row: (old(layouter)@.matrix.rows + 1) as usize,
                })
                &&& r->Ok_0.value == out
                &&& final(layouter)@ == old(layouter)@.commit(
                    self@.binary_region(
                        name@,
                        selector,
                        old(layouter)@.matrix.rows,
                        a,
                        b,
                        value_view(out),
                    ),
                )
            },
    {
        let mut region = layouter.open_region(name);
        region.enable_selector(layouter, selector, 0)?;
        let lhs = region.assign_advice(layouter, self.config.advices[0], 0, a.value)?;
        let rhs = region.assign_advice(layouter, self.config.advices[1], 0, b.value)?;
        region.constrain_equal(layouter, a.cell, lhs)?;
        region.constrain_equal(layouter, b.cell, rhs)?;
        let cell = region.assign_advice(layouter, self.config.advices[0], 1, out)?;
        proof {
            let target = self@.binary_region(
                name@,
                selector,
                layouter@.matrix.rows,
                a,
                b,
                value_view(out),
            );
            assert(region@.cells =~= target.cells);
            assert(region@.enabled =~= target.enabled);
            assert(region@.equalities =~= target.equalities);
        }
        layouter.close_region(region);
        Ok(Number { cell, value: out })
    }

    /// Adds two numbers in a fresh region of two rows: the operands are
    /// copied into row 0, where the addition gate is switched on, and the
    /// sum is written below the left operand.
    pub fn add(&self, layouter: &mut Layouter, a: Number, b: Number) -> (r: Result<Number, Error>)
        requires
            old(layouter)@.wf(),
            self@.installed(old(layouter)@.shape),
            old(layouter)@.matrix.rows + 2 <= usize::MAX,
        ensures
            final(layouter)@.wf(),
            old(layouter)@.matrix.extended_by(final(layouter)@.matrix),
            r is Err <==> !(old(layouter)@.shape.equality_enabled(a.cell.column) && old(
                layouter,
            )@.shape.equality_enabled(b.cell.column)),
            r is Err ==> r == Err::<Number, Error>(
                Error::Configuration(ConfigurationError::EqualityNotEnabled),
            ) && final(layouter)@ == old(layouter)@,
            r is Ok ==> {
                &&& r->Ok_0.cell == (Cell {
                    column: self@.advices[0],
                    row: (old(layouter)@.matrix.rows + 1) as usize,
                })
                &&& value_view(r->Ok_0.value) == sum_view(a.value, b.value)
                &&& final(layouter)@ == old(layouter)@.commit(
                    self@.binary_region(
                        "add"@,
                        self@.sadd,
                        old(layouter)@.matrix.rows,
                        a,
                        b,
                        sum_view(a.value, b.value),
                    ),
                )
            },
    {
        let out = match (a.value, b.value) {
            (Some(x), Some(y)) => Some(x.add(&y)),
            _ => None,
        };
        self.operate(layouter, "add", self.config.sadd, a, b, out)
    }

    /// Multiplies two numbers in a fresh region of two rows: the operands
    /// are copied into row 0, where the multiplication gate is switched on,
    /// and the product is written below the left operand.
    pub fn mul(&self, layouter: &mut Layouter, a: Number, b: Number) -> (r: Result<Number, Error>)
        requires
            old(layouter)@.wf(),
            self@.installed(old(layouter)@.shape),
            old(layouter)@.matrix.rows + 2 <= usize::MAX,
        ensures
            final(layouter)@.wf(),
            old(layouter)@.matrix.extended_by(final(layouter)@.matrix),
            r is Err <==> !(old(layouter)@.shape.equality_enabled(a.cell.column) && old(
                layouter,
            )@.shape.equality_enabled(b.cell.column)),
            r is Err ==> r == Err::<Number, Error>(
                Error::Configuration(ConfigurationError::EqualityNotEnabled),
            ) && final(layouter)@ == old(layouter)@,
            r is Ok ==> {
                &&& r->Ok_0.cell == (Cell {
                    column: self@.advices[0],
                    row: (old(layouter)@.matrix.rows + 1) as usize,
                })
                &&& value_view(r->Ok_0.value) == product_view(a.value, b.value)
                &&& final(layouter)@ == old(layouter)@.commit(
                    self@.binary_region(
                        "mul"@,
                        self@.smul,
                        old(layouter)@.matrix.rows,
                        a,
                        b,
                        product_view(a.value, b.value),
                    ),
                )
            },
    {
        let out = match (a.value, b.value) {
            (Some(x), Some(y)) => Some(x.mul(&y)),
            _ => None,
        };
        self.operate(layouter, "mul", self.config.smul, a, b, out)
    }

    /// XORs the low 32 bits of two numbers in a fresh region of one row:
    /// the operands are copied side by side, the result goes into the
    /// result column, and the lookup selector is switched on, so that the
    /// checker looks the three values up in the XOR table.
    pub fn xor(&self, layouter: &mut Layouter, a: Number, b: Number) -> (r: Result<Number, Error>)
        requires
            old(layouter)@.wf(),
            self@.installed(old(layouter)@.shape),
            old(layouter)@.matrix.rows < usize::MAX,
        ensures
            final(layouter)@.wf(),
            old(layouter)@.matrix.extended_by(final(layouter)@.matrix),
            r is Err <==> !(old(layouter)@.shape.equality_enabled(a.cell.column) && old(
                layouter,
            )@.shape.equality_enabled(b.cell.column)),
            r is Err ==> r == Err::<Number, Error>(
                Error::Configuration(ConfigurationError::EqualityNotEnabled),
            ) && final(layouter)@ == old(layouter)@,
            r is Ok ==> {
                &&& r->Ok_0.cell == (Cell { column: self@.xord, row: old(layouter)@.matrix.rows })
                &&& value_view(r->Ok_0.value) == xor_view(a.value, b.value)
                &&& final(layouter)@ == old(layouter)@.commit(
                    self@.xor_region(
                        old(layouter)@.matrix.rows,
                        a,
                        b,
                        xor_view(a.value, b.value),
                    ),
                )
            },
    {
        let mut region = layouter.open_region("xor");
        region.enable_selector(layouter, self.config.stable, 0)?;
        let lhs = region.assign_advice(layouter, self.config.advices[0], 0, a.value)?;
        let rhs = region.assign_advice(layouter, self.config.advices[1], 0, b.value)?;
        region.constrain_equal(layouter, a.cell, lhs)?;
        region.constrain_equal(layouter, b.cell, rhs)?;
        let out = match (a.value, b.value) {
            (Some(x), Some(y)) => {
                let bits: u32 = x.lower_32() ^ y.lower_32();
                Some(FieldElement::from_u64(bits as u64))
            },
            _ => None,
        };
        let cell = region.assign_advice(layouter, self.config.xord, 0, out)?;
        proof {
            let target = self@.xor_region(
                layouter@.matrix.rows,
                a,
                b,
                xor_view(a.value, b.value),
            );
            assert(region@.cells =~= target.cells);
            assert(region@.enabled =~= target.enabled);
            assert(region@.equalities =~= target.equalities);
        }
        layouter.close_region(region);
        Ok(Number { cell, value: out })
    }
}

/// The operations on numbers that a chip offers to a circuit. Whatever
/// chip lays them out, a circuit can count on this much: on which inputs
/// an operation succeeds; that a failed operation leaves the state as it
/// was; that the number which a successful operation yields has the value
/// the operation is named after, sits in the matrix with that value, and
/// can be an operand in turn; and that nothing laid out before is touched.
/// Which error a failure gives, and where an operation puts its cells, is
/// the chip's own business.
pub trait NumericInstructions {
    /// How the chip hands a value of the circuit around.
    type Num;

    /// Whether the chip can lay its operations out on this state.
    spec fn usable(&self, s: Synthesis) -> bool;

    /// The value that a number carries, if it carries one.
    spec fn value(num: Self::Num) -> Option<nat>;

    /// The cell that holds a number.
    spec fn cell(num: Self::Num) -> Cell;

    /// Whether the chip takes the number as an operand, or as a number to
    /// expose.
    spec fn accepts(&self, s: Synthesis, num: Self::Num) -> bool;

    /// The cell of the public input at a row.
    spec fn public_cell(&self, row: usize) -> Cell;

    /// Whether the chip's XOR table can still be loaded.
    spec fn table_vacant(&self, s: Synthesis) -> bool;

    /// Loads a private input, or the lack of one. This always succeeds.
    fn load_private(&self, layouter: &mut Layouter, value: Option<FieldElement>) -> (r: Result<
        Self::Num,
        Error,
    >)
        requires
            old(layouter)@.wf(),
            self.usable(old(layouter)@),
            old(layouter)@.matrix.rows + 2 <= usize::MAX,
        ensures
            final(layouter)@.wf(),
            self.usable(final(layouter)@),
            old(layouter)@.matrix.extended_by(final(layouter)@.matrix),
            final(layouter)@.matrix.rows <= old(layouter)@.matrix.rows + 2,
            final(layouter)@.shape == old(layouter)@.shape,
            final(layouter)@.tables == old(layouter)@.tables,
            forall|n: Self::Num| #[trigger]
                self.accepts(old(layouter)@, n) ==> self.accepts(final(layouter)@, n),
            r is Ok,
            Self::value(r->Ok_0) == value_view(value),
            final(layouter)@.matrix.value(Self::cell(r->Ok_0)) == value_view(value),
            self.accepts(final(layouter)@, r->Ok_0),
    ;

    /// Loads a constant of the circuit. This always succeeds.
    fn load_constant(&self, layouter: &mut Layouter, constant: FieldElement) -> (r: Result<
        Self::Num,
        Error,
    >)
        requires
            old(layouter)@.wf(),
            self.usable(old(layouter)@),
            old(layouter)@.matrix.rows + 2 <= usize::MAX,
        ensures
            final(layouter)@.wf(),
            self.usable(final(layouter)@),
            old(layouter)@.matrix.extended_by(final(layouter)@.matrix),
            final(layouter)@.matrix.rows <= old(layouter)@.matrix.rows + 2,
            final(layouter)@.shape == old(layouter)@.shape,
            final(layouter)@.tables == old(layouter)@.tables,
            forall|n: Self::Num| #[trigger]
                self.accepts(old(layouter)@, n) ==> self.accepts(final(layouter)@, n),
            r is Ok,
            Self::value(r->Ok_0) == Some(constant@),
            final(layouter)@.matrix.value(Self::cell(r->Ok_0)) == Some(constant@),
            self.accepts(final(layouter)@, r->Ok_0),
    ;

    /// Loads the public input at a row. This succeeds exactly when there
    /// is a public input at that row.
    fn load_public(&self, layouter: &mut Layouter, row: usize) -> (r: Result<Self::Num, Error>)
        requires
            old(layouter)@.wf(),
            self.usable(old(layouter)@),
            old(layouter)@.matrix.rows + 2 <= usize::MAX,
        ensures
            final(layouter)@.wf(),
            self.usable(final(layouter)@),
            old(layouter)@.matrix.extended_by(final(layouter)@.matrix),
            final(layouter)@.matrix.rows <= old(layouter)@.matrix.rows + 2,
            final(layouter)@.shape == old(layouter)@.shape,
            final(layouter)@.tables == old(layouter)@.tables,
            forall|n: Self::Num| #[trigger]
                self.accepts(old(layouter)@, n) ==> self.accepts(final(layouter)@, n),
            r is Ok <==> old(layouter)@.matrix.value(self.public_cell(row)) is Some,
            r is Err ==> final(layouter)@ == old(layouter)@,
            r is Ok ==> {
                &&& Self::value(r->Ok_0) == old(layouter)@.matrix.value(self.public_cell(row))
                &&& final(layouter)@.matrix.value(Self::cell(r->Ok_0)) == Self::value(r->Ok_0)
                &&& self.accepts(final(layouter)@, r->Ok_0)
            },
    ;

    /// Loads the XOR table. This succeeds exactly when the table has not
    /// been loaded before, and touches nothing but the tables.
    fn load_xor_table(&self, layouter: &mut Layouter) -> (r: Result<(), Error>)
        requires
            old(layouter)@.wf(),
            self.usable(old(layouter)@),
        ensures
            final(layouter)@.wf(),
            self.usable(final(layouter)@),
            final(layouter)@.shape == old(layouter)@.shape,
            final(layouter)@.matrix == old(layouter)@.matrix,
            final(layouter)@.equalities == old(layouter)@.equalities,
            forall|n: Self::Num| #[trigger]
                self.accepts(old(layouter)@, n) ==> self.accepts(final(layouter)@, n),
            r is Ok <==> self.table_vacant(old(layouter)@),
            r is Err ==> final(layouter)@ == old(layouter)@,
            r is Ok ==> !self.table_vacant(final(layouter)@),
    ;

    /// Constrains a number to equal the public input at a row. This
    /// succeeds exactly when the chip accepts the number and there is a
    /// public input at that row; it then records the one constraint.
    fn expose_public(&self, layouter: &mut Layouter, num: Self::Num, row: usize) -> (r: Result<
        (),
        Error,
    >)
        requires
            old(layouter)@.wf(),
            self.usable(old(layouter)@),
        ensures
            final(layouter)@.wf(),
            self.usable(final(layouter)@),
            forall|n: Self::Num| #[trigger]
                self.accepts(old(layouter)@, n) ==> self.accepts(final(layouter)@, n),
            r is Ok <==> self.accepts(old(layouter)@, num) && old(layouter)@.matrix.value(
                self.public_cell(row),
            ) is Some,
            r is Err ==> final(layouter)@ == old(layouter)@,
            r is Ok ==> final(layouter)@ == (Synthesis {
                equalities: old(layouter)@.equalities.push(
                    EqualityConstraint { left: Self::cell(num), right: self.public_cell(row) },
                ),
                ..old(layouter)@
            }),
    ;

    /// Multiplies two numbers. This succeeds exactly when the chip accepts
    /// both of them.
    fn mul(&self, layouter: &mut Layouter, a: Self::Num, b: Self::Num) -> (r: Result<
        Self::Num,
        Error,
    >)
        requires
            old(layouter)@.wf(),
            self.usable(old(layouter)@),
            old(layouter)@.matrix.rows + 2 <= usize::MAX,
        ensures
            final(layouter)@.wf(),
            self.usable(final(layouter)@),
            old(layouter)@.matrix.extended_by(final(layouter)@.matrix),
            final(layouter)@.matrix.rows <= old(layouter)@.matrix.rows + 2,
            final(layouter)@.shape == old(layouter)@.shape,
            final(layouter)@.tables == old(layouter)@.tables,
            forall|n: Self::Num| #[trigger]
                self.accepts(old(layouter)@, n) ==> self.accepts(final(layouter)@, n),
            r is Ok <==> self.accepts(old(layouter)@, a) && self.accepts(old(layouter)@, b),
            r is Err ==> final(layouter)@ == old(layouter)@,
            r is Ok ==> {
                &&& Self::value(r->Ok_0) == product_of(Self::value(a), Self::value(b))
                &&& final(layouter)@.matrix.value(Self::cell(r->Ok_0)) == Self::value(r->Ok_0)
                &&& self.accepts(final(layouter)@, r->Ok_0)
            },
    ;

    /// Adds two numbers. This succeeds exactly when the chip accepts both
    /// of them.
    fn add(&self, layouter: &mut Layouter, a: Self::Num, b: Self::Num) -> (r: Result<
        Self::Num,
        Error,
    >)
        requires
            old(layouter)@.wf(),
            self.usable(old(layouter)@),
            old(layouter)@.matrix.rows + 2 <= usize::MAX,
        ensures
            final(layouter)@.wf(),
            self.usable(final(layouter)@),
            old(layouter)@.matrix.extended_by(final(layouter)@.matrix),
            final(layouter)@.matrix.rows <= old(layouter)@.matrix.rows + 2,
            final(layouter)@.shape == old(layouter)@.shape,
            final(layouter)@.tables == old(layouter)@.tables,
            forall|n: Self::Num| #[trigger]
                self.accepts(old(layouter)@, n) ==> self.accepts(final(layouter)@, n),
            r is Ok <==> self.accepts(old(layouter)@, a) && self.accepts(old(layouter)@, b),
            r is Err ==> final(layouter)@ == old(layouter)@,
            r is Ok ==> {
                &&& Self::value(r->Ok_0) == sum_of(Self::value(a), Self::value(b))
                &&& final(layouter)@.matrix.value(Self::cell(r->Ok_0)) == Self::value(r->Ok_0)
                &&& self.accepts(final(layouter)@, r->Ok_0)
            },
    ;

    /// XORs the low 32 bits of two numbers. This succeeds exactly when the
    /// chip accepts both of them.
    fn xor(&self, layouter: &mut Layouter, a: Self::Num, b: Self::Num) -> (r: Result<
        Self::Num,
        Error,
    >)
        requires
            old(layouter)@.wf(),
            self.usable(old(layouter)@),
            old(layouter)@.matrix.rows + 2 <= usize::MAX,
        ensures
            final(layouter)@.wf(),
            self.usable(final(layouter)@),
            old(layouter)@.matrix.extended_by(final(layouter)@.matrix),
            final(layouter)@.matrix.rows <= old(layouter)@.matrix.rows + 2,
            final(layouter)@.shape == old(layouter)@.shape,
            final(layouter)@.tables == old(layouter)@.tables,
            forall|n: Self::Num| #[trigger]
                self.accepts(old(layouter)@, n) ==> self.accepts(final(layouter)@, n),
            r is Ok <==> self.accepts(old(layouter)@, a) && self.accepts(old(layouter)@, b),
            r is Err ==> final(layouter)@ == old(layouter)@,
            r is Ok ==> {
                &&& Self::value(r->Ok_0) == xor_low_of(Self::value(a), Self::value(b))
                &&& final(layouter)@.matrix.value(Self::cell(r->Ok_0)) == Self::value(r->Ok_0)
                &&& self.accepts(final(layouter)@, r->Ok_0)
            },
    ;
}

impl NumericInstructions for FieldChip {
    type Num = Number;

    open spec fn usable(&self, s: Synthesis) -> bool {
        self@.installed(s.shape)
    }

    open spec fn value(num: Number) -> Option<nat> {
        value_view(num.value)
    }

    open spec fn cell(num: Number) -> Cell {
        num.cell
    }

    /// The chip copies an operand and constrains the copy to equal it, so
    /// it takes the numbers whose cells lie on columns with equality.
    open spec fn accepts(&self, s: Synthesis, num: Number) -> bool {
        s.shape.equality_enabled(num.cell.column)
    }

    open spec fn public_cell(&self, row: usize) -> Cell {
        Cell { column: self@.instance, row }
    }

    open spec fn table_vacant(&self, s: Synthesis) -> bool {
        distinct(self@.xor_table@) && all_vacant(s.tables, self@.xor_table@)
    }

    /// One fresh row: the value, or the lack of one, goes into the first
    /// witness column.
    fn load_private(&self, layouter: &mut Layouter, value: Option<FieldElement>) -> (r: Result<
        Number,
        Error,
    >)
        ensures
            r->Ok_0.cell == (Cell { column: self@.advices[0], row: old(layouter)@.matrix.rows }),
            final(layouter)@ == old(layouter)@.commit(
                self@.private_region(old(layouter)@.matrix.rows, value_view(value)),
            ),
    {
        FieldChip::load_private(self, layouter, value)
    }

    /// One fresh row: the constant goes into the constant column and into
    /// the first witness column, and the two cells are constrained equal.
    fn load_constant(&self, layouter: &mut Layouter, constant: FieldElement) -> (r: Result<
        Number,
        Error,
    >)
        ensures
            r->Ok_0.cell == (Cell { column: self@.advices[0], row: old(layouter)@.matrix.rows }),
            final(layouter)@ == old(layouter)@.commit(
                self@.constant_region(old(layouter)@.matrix.rows, constant@),
            ),
    {
        FieldChip::load_constant(self, layouter, constant)
    }

    /// One fresh row: the public input goes into the first witness column,
    /// constrained equal to its instance cell. Without a public input at
    /// `row` this is an `InstanceOutOfBounds`.
    fn load_public(&self, layouter: &mut Layouter, row: usize) -> (r: Result<Number, Error>)
        ensures
            r is Err ==> r == Err::<Number, Error>(
                Error::Synthesis(SynthesisError::InstanceOutOfBounds),
            ),
            r is Ok ==> {
                &&& r->Ok_0.cell == (Cell {
                    column: self@.advices[0],
                    row: old(layouter)@.matrix.rows,
                })
                &&& final(layouter)@ == old(layouter)@.commit(
                    self@.public_region(
                        old(layouter)@.matrix.rows,
                        row,
                        old(layouter)@.matrix.value(Cell { column: self@.instance, row })->Some_0,
                    ),
                )
            },
    {
        FieldChip::load_public(self, layouter, row)
    }

    /// The three table columns receive the XOR table for operands of as
    /// many bits as the chip was configured for, and no other table column
    /// changes. A second loading is a `CellAlreadyAssigned`.
    fn load_xor_table(&self, layouter: &mut Layouter) -> (r: Result<(), Error>)
        ensures
            r is Err ==> r == Err::<(), Error>(
                Error::Synthesis(SynthesisError::CellAlreadyAssigned),
            ),
            r is Ok ==> {
                &&& self@.table_loaded(final(layouter)@.tables)
                &&& forall|c: Column|
                    !self@.xor_table@.contains(c) ==> content(final(layouter)@.tables, c)
                        == content(old(layouter)@.tables, c)
            },
    {
        let r = FieldChip::load_xor_table(self, layouter);
        proof {
            if r is Ok {
                assert(content(layouter@.tables, self@.xor_table[0]) is Some);
                assert(self@.xor_table@[0] == self@.xor_table[0]);
            }
        }
        r
    }

    /// The number's cell is constrained to equal the instance cell at
    /// `row`. A number on a column without equality is an
    /// `EqualityNotEnabled`; a row without a public input, an
    /// `InstanceOutOfBounds`.
    fn expose_public(&self, layouter: &mut Layouter, num: Number, row: usize) -> (r: Result<
        (),
        Error,
    >)
        ensures
            r == if !old(layouter)@.shape.equality_enabled(num.cell.column) {
                Err::<(), Error>(Error::Configuration(ConfigurationError::EqualityNotEnabled))
            } else if old(layouter)@.matrix.value(Cell { column: self@.instance, row }) is None {
                Err(Error::Synthesis(SynthesisError::InstanceOutOfBounds))
            } else {
                Ok(())
            },
    {
        FieldChip::expose_public(self, layouter, num, row)
    }

    /// Two fresh rows: the operands side by side where the multiplication
    /// gate is switched on, each constrained equal to the cell it was
    /// copied from, and the product below the left operand. An operand on
    /// a column without equality is an `EqualityNotEnabled`.
    fn mul(&self, layouter: &mut Layouter, a: Number, b: Number) -> (r: Result<Number, Error>)
        ensures
            r is Err ==> r == Err::<Number, Error>(
                Error::Configuration(ConfigurationError::EqualityNotEnabled),
            ),
            r is Ok ==> {
                &&& r->Ok_0.cell == (Cell {
                    column: self@.advices[0],
                    row: (old(layouter)@.matrix.rows + 1) as usize,
                })
                &&& final(layouter)@ == old(layouter)@.commit(
                    self@.binary_region(
                        "mul"@,
                        self@.smul,
                        old(layouter)@.matrix.rows,
                        a,
                        b,
                        product_view(a.value, b.value),
                    ),
                )
            },
    {
        FieldChip::mul(self, layouter, a, b)
    }

    /// Two fresh rows: the operands side by side where the addition gate
    /// is switched on, each constrained equal to the cell it was copied
    /// from, and the sum below the left operand. An operand on a column
    /// without equality is an `EqualityNotEnabled`.
    fn add(&self, layouter: &mut Layouter, a: Number, b: Number) -> (r: Result<Number, Error>)
        ensures
            r is Err ==> r == Err::<Number, Error>(
                Error::Configuration(ConfigurationError::EqualityNotEnabled),
            ),
            r is Ok ==> {
                &&& r->Ok_0.cell == (Cell {
                    column: self@.advices[0],
                    row: (old(layouter)@.matrix.rows + 1) as usize,
                })
                &&& final(layouter)@ == old(layouter)@.commit(
                    self@.binary_region(
                        "add"@,
                        self@.sadd,
                        old(layouter)@.matrix.rows,
                        a,
                        b,
                        sum_view(a.value, b.value),
                    ),
                )
            },
    {
        FieldChip::add(self, layouter, a, b)
    }

    /// One fresh row, where the lookup selector is switched on: the
    /// operands side by side, each constrained equal to the cell it was
    /// copied from, and the XOR of their low 32 bits in the result column.
    /// An operand on a column without equality is an `EqualityNotEnabled`.
    fn xor(&self, layouter: &mut Layouter, a: Number, b: Number) -> (r: Result<Number, Error>)
        ensures
            r is Err ==> r == Err::<Number, Error>(
                Error::Configuration(ConfigurationError::EqualityNotEnabled),
            ),
            r is Ok ==> {
                &&& r->Ok_0.cell == (Cell { column: self@.xord, row: old(layouter)@.matrix.rows })
                &&& final(layouter)@ == old(layouter)@.commit(
                    self@.xor_region(
                        old(layouter)@.matrix.rows,
                        a,
                        b,
                        xor_view(a.value, b.value),
                    ),
                )
            },
    {
        FieldChip::xor(self, layouter, a, b)
    }
}

/// Whether the column is declared and of the given kind.
fn is_declared(meta: &ConstraintSystem, column: Column, kind: ColumnKind) -> (r: bool)
    ensures
        r == (column.kind == kind && meta@.declares(column)),
{
    column.kind == kind && meta.declares(column)
}

} // verus!
