use std::collections::HashMap;

use halo2_proofs::circuit::{
    Cell as BackendCell, Chip, Layouter as BackendLayouter, SimpleFloorPlanner,
};
use halo2_proofs::dev::{CircuitGates, MockProver};
use halo2_proofs::pasta::group::ff::PrimeField;
use halo2_proofs::pasta::Fp;
use halo2_proofs::plonk::{
    Advice, Circuit, Column as BackendColumn, ConstraintSystem as BackendSystem,
    Error as BackendError, Expression as BackendExpression, Fixed, Instance,
    Selector as BackendSelector, TableColumn, VirtualCells,
};
use halo2_proofs::poly::Rotation;
use plonkish::chip::{FieldChip, FieldConfig};
use plonkish::column::{Cell, Column, ColumnKind};
use plonkish::constraint_system::ConstraintSystem;
use plonkish::error::Error;
use plonkish::expression::Expression;
use plonkish::field::FieldElement;
use plonkish::layouter::Layouter;

fn to_fp(value: &FieldElement) -> Fp {
    Fp::from_repr(value.to_repr()).unwrap()
}

fn from_fp(value: &Fp) -> FieldElement {
    FieldElement::from_repr(value.to_repr()).unwrap()
}

/// The library's chip, seen as a chip of the backend.
#[derive(Debug)]
struct BackendChip(FieldChip);

impl Chip<Fp> for BackendChip {
    type Config = FieldConfig;
    type Loaded = ();

    fn config(&self) -> &Self::Config {
        self.0.config()
    }

    fn loaded(&self) -> &Self::Loaded {
        &()
    }
}

/// The backend's columns and selectors that stand for those of a shape.
#[derive(Clone, Debug)]
struct Bound {
    advice: Vec<BackendColumn<Advice>>,
    fixed: Vec<BackendColumn<Fixed>>,
    instance: Vec<BackendColumn<Instance>>,
    tables: Vec<TableColumn>,
    selectors: Vec<BackendSelector>,
}

fn convert(e: &Expression, bound: &Bound, cells: &mut VirtualCells<'_, Fp>) -> BackendExpression<Fp> {
    match e {
        Expression::Constant(c) => BackendExpression::Constant(to_fp(c)),
        Expression::Query(q) => {
            let at = Rotation(q.rotation as i32);
            match q.column.kind {
                ColumnKind::Advice => cells.query_advice(bound.advice[q.column.index], at),
                ColumnKind::Fixed => cells.query_fixed(bound.fixed[q.column.index], at),
                ColumnKind::Instance => cells.query_instance(bound.instance[q.column.index], at),
                ColumnKind::LookupTable => panic!("a gate cannot query a table column"),
            }
        }
        Expression::Sum(a, b) => convert(a, bound, cells) + convert(b, bound, cells),
        Expression::Difference(a, b) => convert(a, bound, cells) - convert(b, bound, cells),
        Expression::Product(a, b) => convert(a, bound, cells) * convert(b, bound, cells),
    }
}

/// Declares on the backend's constraint system what the shape declares.
fn bind(shape: &ConstraintSystem, meta: &mut BackendSystem<Fp>) -> Bound {
    let mut bound = Bound {
        advice: Vec::new(),
        fixed: Vec::new(),
        instance: Vec::new(),
        tables: Vec::new(),
        selectors: Vec::new(),
    };
    for index in 0..shape.column_count(ColumnKind::Advice) {
        let column = meta.advice_column();
        if shape.equality_enabled(Column { kind: ColumnKind::Advice, index }) {
            meta.enable_equality(column);
        }
        bound.advice.push(column);
    }
    for index in 0..shape.column_count(ColumnKind::Fixed) {
        let column = meta.fixed_column();
        if shape.equality_enabled(Column { kind: ColumnKind::Fixed, index }) {
            meta.enable_equality(column);
        }
        bound.fixed.push(column);
    }
    for index in 0..shape.column_count(ColumnKind::Instance) {
        let column = meta.instance_column();
        if shape.equality_enabled(Column { kind: ColumnKind::Instance, index }) {
            meta.enable_equality(column);
        }
        bound.instance.push(column);
    }
    for _ in 0..shape.column_count(ColumnKind::LookupTable) {
        bound.tables.push(meta.lookup_table_column());
    }
    for index in 0..shape.selector_count() {
        let complex = shape.selector(index).unwrap().complex;
        bound.selectors.push(if complex { meta.complex_selector() } else { meta.selector() });
    }
    for gate in shape.gates() {
        if gate.polys.is_empty() {
            continue;
        }
        let name: &'static str = Box::leak(gate.name.clone().into_boxed_str());
        let selector = bound.selectors[gate.selector.index];
        meta.create_gate(name, |cells| {
            let on = cells.query_selector(selector);
            let mut polys = Vec::new();
            for poly in &gate.polys {
                polys.push(on.clone() * convert(poly, &bound, cells));
            }
            polys
        });
    }
    for lookup in shape.lookups() {
        let selector = bound.selectors[lookup.selector.index];
        meta.lookup(|cells| {
            let on = cells.query_selector(selector);
            let mut pairs = Vec::new();
            for input in &lookup.inputs {
                pairs.push((
                    on.clone() * convert(&input.input, &bound, cells),
                    bound.tables[input.table.index],
                ));
            }
            pairs
        });
    }
    bound
}

/// Hands a finished run to the backend: the tables column by column, the
/// cells and the selector rows in one region, and every equality.
fn replay(
    run: &Layouter,
    bound: &Bound,
    mut layouter: impl BackendLayouter<Fp>,
) -> Result<(), BackendError> {
    for index in 0..bound.tables.len() {
        let column = Column { kind: ColumnKind::LookupTable, index };
        if let Some(values) = run.tables().column(column) {
            if values.is_empty() {
                continue;
            }
            layouter.assign_table(
                || "table column",
                |mut table| {
                    for (row, value) in values.iter().enumerate() {
                        table.assign_cell(|| "table cell", bound.tables[index], row, || Ok(to_fp(value)))?;
                    }
                    Ok(())
                },
            )?;
        }
    }
    let placed = layouter.assign_region(
        || "replay",
        |mut region| {
            let mut placed: HashMap<Cell, BackendCell> = HashMap::new();
            for entry in run.assignment().cells() {
                let value = entry.value;
                let row = entry.cell.row;
                let index = entry.cell.column.index;
                let cell = match entry.cell.column.kind {
                    ColumnKind::Advice => region
                        .assign_advice(
                            || "advice",
                            bound.advice[index],
                            row,
                            || value.map(|v| to_fp(&v)).ok_or(BackendError::Synthesis),
                        )?
                        .cell(),
                    ColumnKind::Fixed => region
                        .assign_fixed(
                            || "fixed",
                            bound.fixed[index],
                            row,
                            || value.map(|v| to_fp(&v)).ok_or(BackendError::Synthesis),
                        )?
                        .cell(),
                    _ => return Err(BackendError::Synthesis),
                };
                placed.insert(entry.cell, cell);
            }
            for activation in run.assignment().activations() {
                bound.selectors[activation.selector].enable(&mut region, activation.row)?;
            }
            for equality in run.equalities() {
                if let (Some(left), Some(right)) =
                    (placed.get(&equality.left), placed.get(&equality.right))
                {
                    region.constrain_equal(*left, *right)?;
                }
            }
            Ok(placed)
        },
    )?;
    for equality in run.equalities() {
        let (cell, public) = match (equality.left.column.kind, equality.right.column.kind) {
            (ColumnKind::Instance, ColumnKind::Instance) => return Err(BackendError::Synthesis),
            (ColumnKind::Instance, _) => (equality.right, equality.left),
            (_, ColumnKind::Instance) => (equality.left, equality.right),
            _ => continue,
        };
        let cell = placed.get(&cell).ok_or(BackendError::Synthesis)?;
        layouter.constrain_instance(*cell, bound.instance[public.column.index], public.row)?;
    }
    Ok(())
}

fn shape() -> (ConstraintSystem, FieldConfig) {
    let mut meta = ConstraintSystem::new();
    let advice = [
        meta.declare_column(ColumnKind::Advice).unwrap(),
        meta.declare_column(ColumnKind::Advice).unwrap(),
    ];
    let instance = meta.declare_column(ColumnKind::Instance).unwrap();
    let constant = meta.declare_column(ColumnKind::Fixed).unwrap();
    let xor_table = [
        meta.declare_column(ColumnKind::LookupTable).unwrap(),
        meta.declare_column(ColumnKind::LookupTable).unwrap(),
        meta.declare_column(ColumnKind::LookupTable).unwrap(),
    ];
    let xord = meta.declare_column(ColumnKind::Advice).unwrap();
    let config =
        FieldChip::configure(&mut meta, advice, instance, constant, 2, xor_table, xord).unwrap();
    (meta, config)
}

/// a^2 + b^2 + constant = c^2 with c public, and a XOR b on the side.
#[derive(Clone)]
struct Pythagore {
    constant: FieldElement,
    a: Option<FieldElement>,
    b: Option<FieldElement>,
    xor_left: Option<FieldElement>,
    public_inputs: Vec<FieldElement>,
}

fn lay_out(circuit: &Pythagore) -> Result<Layouter, Error> {
    let (meta, config) = shape();
    let chip = FieldChip::construct(config);
    let mut layouter = Layouter::new(meta, vec![circuit.public_inputs.clone()]);
    chip.load_xor_table(&mut layouter)?;
    let a = chip.load_private(&mut layouter, circuit.a)?;
    let b = chip.load_private(&mut layouter, circuit.b)?;
    let c = chip.load_public(&mut layouter, 0)?;
    let constant = chip.load_constant(&mut layouter, circuit.constant)?;
    let bsquare = chip.mul(&mut layouter, b, b)?;
    let asquare = chip.mul(&mut layouter, a, a)?;
    let ab2 = chip.add(&mut layouter, asquare, bsquare)?;
    let ab2const = chip.add(&mut layouter, ab2, constant)?;
    let c2 = chip.mul(&mut layouter, c, c)?;
    let columns = chip.config().advices;
    layouter.with_region("check", |ctx, mut region| {
        let lhs = region.assign_advice(ctx, columns[0], 0, ab2const.value)?;
        let rhs = region.assign_advice(ctx, columns[1], 0, c2.value)?;
        region.constrain_equal(ctx, ab2const.cell, lhs)?;
        region.constrain_equal(ctx, c2.cell, rhs)?;
        region.constrain_equal(ctx, lhs, rhs)?;
        Ok((region, ()))
    })?;
    let left = chip.load_private(&mut layouter, circuit.xor_left)?;
    chip.xor(&mut layouter, left, b)?;
    Ok(layouter)
}

impl Circuit<Fp> for Pythagore {
    type Config = Bound;
    type FloorPlanner = SimpleFloorPlanner;

    fn without_witnesses(&self) -> Self {
        Pythagore { a: None, b: None, xor_left: None, ..self.clone() }
    }

    fn configure(meta: &mut BackendSystem<Fp>) -> Bound {
        let (shape, _) = shape();
        bind(&shape, meta)
    }

    fn synthesize(
        &self,
        config: Bound,
        layouter: impl BackendLayouter<Fp>,
    ) -> Result<(), BackendError> {
        let run = lay_out(self).map_err(|_| BackendError::Synthesis)?;
        replay(&run, &config, layouter)
    }
}

fn circuit(a: u64, b: u64, constant: u64, xor_left: u64, public: u64) -> Pythagore {
    Pythagore {
        constant: FieldElement::from_u64(constant),
        a: Some(FieldElement::from_u64(a)),
        b: Some(FieldElement::from_u64(b)),
        xor_left: Some(FieldElement::from_u64(xor_left)),
        public_inputs: vec![FieldElement::from_u64(public)],
    }
}

/// Whether the library's checker and the backend's mock prover accept the
/// circuit; the two have to agree.
fn accepted(circuit: &Pythagore) -> bool {
    let ours = lay_out(circuit).unwrap().verify().is_ok();
    let instance: Vec<Fp> = circuit.public_inputs.iter().map(to_fp).collect();
    let prover = MockProver::run(10, circuit, vec![instance]).unwrap();
    let theirs = prover.verify().is_ok();
    assert_eq!(ours, theirs);
    ours
}

#[test]
fn elements_cross_to_the_backend_and_back() {
    for v in [0u64, 1, 13, u64::MAX] {
        assert_eq!(to_fp(&FieldElement::from_u64(v)), Fp::from(v));
        assert_eq!(from_fp(&Fp::from(v)), FieldElement::from_u64(v));
    }
    let minus_one = FieldElement::zero().sub(&FieldElement::one());
    assert_eq!(to_fp(&minus_one), -Fp::one());
    assert_eq!(from_fp(&-Fp::one()), minus_one);
    assert_eq!(from_fp(&(Fp::from(7) * Fp::from(9))), FieldElement::from_u64(63));
}

#[test]
fn the_chip_is_a_chip_of_the_backend() {
    let (_, config) = shape();
    let chip = BackendChip(FieldChip::construct(config));
    assert_eq!(Chip::config(&chip), &config);
    assert_eq!(Chip::loaded(&chip), &());
}

#[test]
fn the_backend_lists_both_gates() {
    let gates = format!("{}", CircuitGates::collect::<Fp, Pythagore>());
    println!("{}", gates);
    assert!(gates.contains("mul"));
    assert!(gates.contains("add"));
}

#[test]
fn the_mock_prover_agrees_on_a_satisfied_circuit() {
    assert!(accepted(&circuit(2, 3, 3, 2, 4)));
    assert!(accepted(&circuit(0, 0, 0, 0, 0)));
    assert!(accepted(&circuit(3, 0, 16, 1, 5)));
}

#[test]
fn the_mock_prover_agrees_on_a_wrong_public_input() {
    assert!(!accepted(&circuit(2, 3, 3, 2, 5)));
    assert!(!accepted(&circuit(2, 3, 4, 2, 4)));
}

#[test]
fn the_mock_prover_agrees_on_an_operand_outside_the_table() {
    assert!(!accepted(&circuit(2, 3, 3, 4, 4)));
    assert!(!accepted(&circuit(2, 3, 3, 1 << 20, 4)));
    // b = 4 is outside the table too: 2^2 + 4^2 + 5 = 5^2.
    assert!(!accepted(&circuit(2, 4, 5, 2, 5)));
}
