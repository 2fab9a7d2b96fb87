use plonkish::checker::Violation;
use plonkish::chip::{FieldChip, FieldConfig, Number, NumericInstructions};
use plonkish::column::{Cell, Column, ColumnKind, Selector};
use plonkish::constraint_system::{ConstraintSystem, LookupInput};
use plonkish::equality::EqualityConstraint;
use plonkish::error::{ConfigurationError, Error, SynthesisError};
use plonkish::expression::{Expression, Query};
use plonkish::field::FieldElement;
use plonkish::layouter::Layouter;

fn fe(v: u64) -> FieldElement {
    FieldElement::from_u64(v)
}

struct Columns {
    advices: [Column; 2],
    instance: Column,
    constant: Column,
    xor_table: [Column; 3],
    xord: Column,
}

fn declare(meta: &mut ConstraintSystem) -> Columns {
    let advices = [
        meta.declare_column(ColumnKind::Advice).unwrap(),
        meta.declare_column(ColumnKind::Advice).unwrap(),
    ];
    let instance = meta.declare_column(ColumnKind::Instance).unwrap();
    let constant = meta.declare_column(ColumnKind::Fixed).unwrap();
    let xor_table = [
        meta.declare_column(ColumnKind::LookupTable).unwrap(),
        meta.declare_column(ColumnKind::LookupTable).unwrap(),
        meta.declare_column(ColumnKind::LookupTable).unwrap(),
    ];
    let xord = meta.declare_column(ColumnKind::Advice).unwrap();
    Columns { advices, instance, constant, xor_table, xord }
}

fn configure(meta: &mut ConstraintSystem, c: &Columns, bits: usize) -> Result<FieldConfig, Error> {
    FieldChip::configure(meta, c.advices, c.instance, c.constant, bits, c.xor_table, c.xord)
}

fn chip(bits: usize, public_inputs: Vec<FieldElement>) -> (FieldChip, Layouter) {
    let mut meta = ConstraintSystem::new();
    let columns = declare(&mut meta);
    let config = configure(&mut meta, &columns, bits).unwrap();
    let chip = FieldChip::construct(config);
    let mut layouter = Layouter::new(meta, vec![public_inputs]);
    chip.load_xor_table(&mut layouter).unwrap();
    (chip, layouter)
}

#[test]
fn configure_declares_the_gates_and_the_lookup() {
    let mut meta = ConstraintSystem::new();
    let c = declare(&mut meta);
    let config = configure(&mut meta, &c, 2).unwrap();
    assert_eq!(config.advices, c.advices);
    assert_eq!(config.instance, c.instance);
    assert_eq!(config.constant, c.constant);
    assert_eq!(config.xor_table, c.xor_table);
    assert_eq!(config.xord, c.xord);
    assert_eq!(config.xor_bitlength, 2);
    assert_eq!(config.smul, Selector { index: 0, complex: false });
    assert_eq!(config.sadd, Selector { index: 1, complex: false });
    assert_eq!(config.stable, Selector { index: 2, complex: true });
    for column in [c.instance, c.constant, c.advices[0], c.advices[1], c.xord] {
        assert!(meta.equality_enabled(column));
    }
    let [a0, a1] = c.advices;
    assert_eq!(meta.gates().len(), 2);
    assert_eq!(meta.gates()[0].name, "mul");
    assert_eq!(meta.gates()[0].selector, config.smul);
    assert_eq!(
        meta.gates()[0].polys,
        vec![Expression::cur(a0).times(Expression::cur(a1)).minus(Expression::next(a0))]
    );
    assert_eq!(meta.gates()[1].name, "add");
    assert_eq!(meta.gates()[1].selector, config.sadd);
    assert_eq!(
        meta.gates()[1].polys,
        vec![Expression::cur(a0).plus(Expression::cur(a1)).minus(Expression::next(a0))]
    );
    assert_eq!(meta.lookups().len(), 1);
    assert_eq!(meta.lookups()[0].name, "xor");
    assert_eq!(meta.lookups()[0].selector, config.stable);
    assert_eq!(
        meta.lookups()[0].inputs,
        vec![
            LookupInput { input: Expression::cur(a0), table: c.xor_table[0] },
            LookupInput { input: Expression::cur(a1), table: c.xor_table[1] },
            LookupInput { input: Expression::cur(c.xord), table: c.xor_table[2] },
        ]
    );
    assert_eq!(FieldChip::construct(config).config().xor_bitlength, 2);
}

#[test]
fn configure_declares_nothing_when_it_fails() {
    let mut meta = ConstraintSystem::new();
    let mut c = declare(&mut meta);
    c.xord = Column { kind: ColumnKind::Advice, index: 7 };
    assert_eq!(
        configure(&mut meta, &c, 2).err(),
        Some(Error::Configuration(ConfigurationError::UndeclaredColumn))
    );

    let mut c = declare(&mut meta);
    c.xor_table[1] = c.advices[0];
    assert_eq!(
        configure(&mut meta, &c, 2).err(),
        Some(Error::Configuration(ConfigurationError::UndeclaredColumn))
    );

    let mut c = declare(&mut meta);
    c.advices[1] = c.advices[0];
    assert_eq!(
        configure(&mut meta, &c, 2).err(),
        Some(Error::Configuration(ConfigurationError::DuplicateEquality))
    );

    let c = declare(&mut meta);
    meta.enable_equality(c.constant).unwrap();
    assert_eq!(
        configure(&mut meta, &c, 2).err(),
        Some(Error::Configuration(ConfigurationError::DuplicateEquality))
    );
    assert!(!meta.equality_enabled(c.instance));
    assert!(!meta.equality_enabled(c.advices[0]));
    assert!(!meta.declares_selector(Selector { index: 0, complex: false }));
    assert_eq!(meta.gates().len(), 0);
    assert_eq!(meta.lookups().len(), 0);

    let c = declare(&mut meta);
    meta.freeze();
    assert_eq!(
        configure(&mut meta, &c, 2).err(),
        Some(Error::Configuration(ConfigurationError::Frozen))
    );
}

#[test]
fn two_chips_share_a_constraint_system() {
    let mut meta = ConstraintSystem::new();
    let first = declare(&mut meta);
    let second = declare(&mut meta);
    let first = configure(&mut meta, &first, 1).unwrap();
    let second = configure(&mut meta, &second, 2).unwrap();
    assert_eq!(second.smul, Selector { index: 3, complex: false });
    assert_eq!(meta.gates().len(), 4);
    let one = FieldChip::construct(first);
    let two = FieldChip::construct(second);
    let mut layouter = Layouter::new(meta, vec![vec![], vec![]]);
    one.load_xor_table(&mut layouter).unwrap();
    two.load_xor_table(&mut layouter).unwrap();
    let a = one.load_private(&mut layouter, Some(fe(3))).unwrap();
    let b = two.load_private(&mut layouter, Some(fe(2))).unwrap();
    let sum = one.add(&mut layouter, a, b).unwrap();
    let product = two.mul(&mut layouter, sum, a).unwrap();
    assert_eq!(product.value, Some(fe(15)));
    // 3 has two bits: it is in the second chip's table, not in the first's.
    two.xor(&mut layouter, a, b).unwrap();
    assert_eq!(layouter.verify(), Ok(()));
    one.xor(&mut layouter, a, b).unwrap();
    assert_eq!(
        layouter.verify(),
        Err(vec![Violation::Lookup { name: "xor".to_string(), row: 7 }])
    );
}

#[test]
fn the_xor_table_is_loaded_once() {
    let (chip, mut layouter) = chip(2, vec![]);
    assert_eq!(
        chip.load_xor_table(&mut layouter),
        Err(Error::Synthesis(SynthesisError::CellAlreadyAssigned))
    );
    let columns = chip.config().xor_table.to_vec();
    for i in 0..4 {
        for j in 0..4 {
            assert!(layouter.tables().has_row(&columns, &vec![fe(i), fe(j), fe(i ^ j)]));
        }
    }
    assert!(!layouter.tables().has_row(&columns, &vec![fe(4), fe(1), fe(5)]));
    assert!(!layouter.tables().has_row(&columns, &vec![fe(1), fe(4), fe(5)]));
    assert!(!layouter.tables().has_row(&columns, &vec![fe(1), fe(2), fe(0)]));
}

#[test]
fn loading_lays_out_one_row_each() {
    let (chip, mut layouter) = chip(2, vec![fe(10), fe(11)]);
    let config = *chip.config();
    let a = chip.load_private(&mut layouter, Some(fe(5))).unwrap();
    assert_eq!(a.cell, Cell { column: config.advices[0], row: 0 });
    assert_eq!(a.value, Some(fe(5)));
    let none = chip.load_private(&mut layouter, None).unwrap();
    assert_eq!(none.cell, Cell { column: config.advices[0], row: 1 });
    assert_eq!(none.value, None);
    let k = chip.load_constant(&mut layouter, fe(3)).unwrap();
    assert_eq!(k.cell, Cell { column: config.advices[0], row: 2 });
    assert_eq!(k.value, Some(fe(3)));
    let p = chip.load_public(&mut layouter, 1).unwrap();
    assert_eq!(p.cell, Cell { column: config.advices[0], row: 3 });
    assert_eq!(p.value, Some(fe(11)));
    assert_eq!(layouter.rows(), 4);

    let matrix = layouter.assignment();
    assert_eq!(matrix.value(a.cell), Some(fe(5)));
    assert!(matrix.is_claimed(none.cell));
    assert_eq!(matrix.value(none.cell), None);
    assert_eq!(matrix.value(k.cell), Some(fe(3)));
    assert_eq!(matrix.value(Cell { column: config.constant, row: 2 }), Some(fe(3)));
    assert_eq!(matrix.value(p.cell), Some(fe(11)));
    assert_eq!(
        layouter.equalities(),
        &vec![
            EqualityConstraint { left: Cell { column: config.constant, row: 2 }, right: k.cell },
            EqualityConstraint { left: Cell { column: config.instance, row: 1 }, right: p.cell },
        ]
    );
    // Nothing reads the cell without a value.
    assert_eq!(layouter.verify(), Ok(()));
}

#[test]
fn load_public_needs_the_row_to_exist() {
    let (chip, mut layouter) = chip(2, vec![fe(10)]);
    assert_eq!(
        chip.load_public(&mut layouter, 1).err(),
        Some(Error::Synthesis(SynthesisError::InstanceOutOfBounds))
    );
    assert_eq!(layouter.rows(), 0);
    assert_eq!(layouter.equalities().len(), 0);
    assert_eq!(chip.load_public(&mut layouter, 0).unwrap().value, Some(fe(10)));
}

#[test]
fn expose_public_ties_a_number_to_a_public_input() {
    let (chip, mut layouter) = chip(2, vec![fe(10)]);
    let ten = chip.load_private(&mut layouter, Some(fe(10))).unwrap();
    let nine = chip.load_private(&mut layouter, Some(fe(9))).unwrap();
    assert_eq!(
        chip.expose_public(&mut layouter, ten, 1),
        Err(Error::Synthesis(SynthesisError::InstanceOutOfBounds))
    );
    let stray = Number { cell: Cell { column: chip.config().xor_table[0], row: 0 }, value: None };
    assert_eq!(
        chip.expose_public(&mut layouter, stray, 0),
        Err(Error::Configuration(ConfigurationError::EqualityNotEnabled))
    );
    assert_eq!(chip.expose_public(&mut layouter, ten, 0), Ok(()));
    assert_eq!(layouter.verify(), Ok(()));
    assert_eq!(chip.expose_public(&mut layouter, nine, 0), Ok(()));
    assert_eq!(
        layouter.verify(),
        Err(vec![Violation::Equality {
            cells: vec![ten.cell, Cell { column: chip.config().instance, row: 0 }, nine.cell]
        }])
    );
}

#[test]
fn add_yields_the_sum() {
    let (chip, mut layouter) = chip(2, vec![]);
    let config = *chip.config();
    let a = chip.load_private(&mut layouter, Some(fe(20))).unwrap();
    let b = chip.load_private(&mut layouter, Some(fe(22))).unwrap();
    let sum = chip.add(&mut layouter, a, b).unwrap();
    assert_eq!(sum.value, Some(fe(42)));
    assert_eq!(sum.cell, Cell { column: config.advices[0], row: 3 });
    let matrix = layouter.assignment();
    assert_eq!(matrix.value(sum.cell), Some(fe(42)));
    // The operands are copied, left and right, not the left one twice.
    assert_eq!(matrix.value(Cell { column: config.advices[0], row: 2 }), Some(fe(20)));
    assert_eq!(matrix.value(Cell { column: config.advices[1], row: 2 }), Some(fe(22)));
    assert!(matrix.is_enabled(config.sadd.index, 2));
    assert!(!matrix.is_enabled(config.sadd.index, 3));
    assert!(!matrix.is_enabled(config.smul.index, 2));
    assert_eq!(layouter.rows(), 4);
    assert_eq!(
        layouter.equalities(),
        &vec![
            EqualityConstraint { left: a.cell, right: Cell { column: config.advices[0], row: 2 } },
            EqualityConstraint { left: b.cell, right: Cell { column: config.advices[1], row: 2 } },
        ]
    );
    assert_eq!(layouter.verify(), Ok(()));
}

#[test]
fn add_wraps_around_the_modulus() {
    let (chip, mut layouter) = chip(2, vec![]);
    let minus_one = fe(0).sub(&fe(1));
    let a = chip.load_private(&mut layouter, Some(minus_one)).unwrap();
    let b = chip.load_private(&mut layouter, Some(fe(5))).unwrap();
    assert_eq!(chip.add(&mut layouter, a, b).unwrap().value, Some(fe(4)));
    assert_eq!(layouter.verify(), Ok(()));
}

#[test]
fn mul_yields_the_product() {
    let (chip, mut layouter) = chip(2, vec![]);
    let config = *chip.config();
    let a = chip.load_private(&mut layouter, Some(fe(6))).unwrap();
    let b = chip.load_private(&mut layouter, Some(fe(7))).unwrap();
    let product = chip.mul(&mut layouter, a, b).unwrap();
    assert_eq!(product.value, Some(fe(42)));
    assert_eq!(product.cell, Cell { column: config.advices[0], row: 3 });
    let matrix = layouter.assignment();
    assert_eq!(matrix.value(product.cell), Some(fe(42)));
    assert_eq!(matrix.value(Cell { column: config.advices[0], row: 2 }), Some(fe(6)));
    assert_eq!(matrix.value(Cell { column: config.advices[1], row: 2 }), Some(fe(7)));
    assert!(matrix.is_enabled(config.smul.index, 2));
    assert!(!matrix.is_enabled(config.sadd.index, 2));
    assert_eq!(layouter.verify(), Ok(()));
    let minus_one = chip.load_private(&mut layouter, Some(fe(0).sub(&fe(1)))).unwrap();
    let one = chip.mul(&mut layouter, minus_one, minus_one).unwrap();
    assert_eq!(one.value, Some(fe(1)));
    assert_eq!(layouter.verify(), Ok(()));
}

#[test]
fn xor_yields_the_xor_of_small_operands() {
    for x in 0..4u64 {
        for y in 0..4u64 {
            let (chip, mut layouter) = chip(2, vec![]);
            let a = chip.load_private(&mut layouter, Some(fe(x))).unwrap();
            let b = chip.load_private(&mut layouter, Some(fe(y))).unwrap();
            let out = chip.xor(&mut layouter, a, b).unwrap();
            assert_eq!(out.value, Some(fe(x ^ y)));
            assert_eq!(out.cell, Cell { column: chip.config().xord, row: 2 });
            assert_eq!(layouter.assignment().value(out.cell), Some(fe(x ^ y)));
            assert!(layouter.assignment().is_enabled(chip.config().stable.index, 2));
            assert_eq!(layouter.rows(), 3);
            assert_eq!(layouter.verify(), Ok(()));
        }
    }
}

#[test]
fn xor_of_a_wide_operand_fails_the_lookup() {
    for (x, y) in [(4u64, 1u64), (1, 4), (7, 9), (1 << 40, 0)] {
        let (chip, mut layouter) = chip(2, vec![]);
        let a = chip.load_private(&mut layouter, Some(fe(x))).unwrap();
        let b = chip.load_private(&mut layouter, Some(fe(y))).unwrap();
        let out = chip.xor(&mut layouter, a, b).unwrap();
        assert_eq!(out.value, Some(fe((x as u32 ^ y as u32) as u64)));
        assert_eq!(
            layouter.verify(),
            Err(vec![Violation::Lookup { name: "xor".to_string(), row: 2 }])
        );
    }
}

#[test]
fn operands_have_to_be_on_columns_with_equality() {
    let (chip, mut layouter) = chip(2, vec![]);
    let a = chip.load_private(&mut layouter, Some(fe(1))).unwrap();
    let stray = Number { cell: Cell { column: chip.config().xor_table[0], row: 0 }, value: Some(fe(1)) };
    let disabled = Some(Error::Configuration(ConfigurationError::EqualityNotEnabled));
    assert_eq!(chip.add(&mut layouter, a, stray).err(), disabled);
    assert_eq!(chip.add(&mut layouter, stray, a).err(), disabled);
    assert_eq!(chip.mul(&mut layouter, a, stray).err(), disabled);
    assert_eq!(chip.xor(&mut layouter, stray, a).err(), disabled);
    // The failed regions left nothing behind.
    assert_eq!(layouter.rows(), 1);
    assert_eq!(layouter.equalities().len(), 0);
    assert!(!layouter.assignment().is_enabled(chip.config().sadd.index, 1));
    assert_eq!(layouter.verify(), Ok(()));
}

#[test]
fn a_pass_without_witness_lays_out_the_same_shape() {
    let (chip, mut layouter) = chip(2, vec![fe(4)]);
    let config = *chip.config();
    let a = chip.load_private(&mut layouter, None).unwrap();
    let b = chip.load_private(&mut layouter, None).unwrap();
    let product = chip.mul(&mut layouter, a, b).unwrap();
    assert_eq!(product.value, None);
    assert_eq!(product.cell, Cell { column: config.advices[0], row: 3 });
    let sum = chip.add(&mut layouter, product, a).unwrap();
    assert_eq!(sum.value, None);
    let x = chip.xor(&mut layouter, a, b).unwrap();
    assert_eq!(x.value, None);
    assert_eq!(layouter.rows(), 7);
    // The checker needs the values: every constraint that reads one says so.
    let left = Query { column: config.advices[0], rotation: 0 };
    let violations = layouter.verify().unwrap_err();
    assert_eq!(
        &violations[..3],
        &[
            Violation::Synthesis { query: left, row: 2 },
            Violation::Synthesis { query: left, row: 4 },
            Violation::Synthesis { query: left, row: 6 },
        ]
    );
    assert!(violations.iter().all(|v| matches!(v, Violation::Synthesis { .. })));
}

#[test]
fn a_forged_result_breaks_the_gate() {
    let (chip, mut layouter) = chip(2, vec![]);
    let config = *chip.config();
    let mut region = layouter.open_region("forged");
    region.enable_selector(&layouter, config.smul, 0).unwrap();
    region.assign_advice(&layouter, config.advices[0], 0, Some(fe(6))).unwrap();
    region.assign_advice(&layouter, config.advices[1], 0, Some(fe(7))).unwrap();
    region.assign_advice(&layouter, config.advices[0], 1, Some(fe(43))).unwrap();
    layouter.close_region(region);
    let mut region = layouter.open_region("forged");
    region.enable_selector(&layouter, config.sadd, 0).unwrap();
    region.assign_advice(&layouter, config.advices[0], 0, Some(fe(6))).unwrap();
    region.assign_advice(&layouter, config.advices[1], 0, Some(fe(7))).unwrap();
    region.assign_advice(&layouter, config.advices[0], 1, Some(fe(42))).unwrap();
    layouter.close_region(region);
    assert_eq!(
        layouter.verify(),
        Err(vec![
            Violation::Gate { name: "mul".to_string(), row: 0 },
            Violation::Gate { name: "add".to_string(), row: 2 },
        ])
    );
}

/// (x + y)^2 XOR y, with whatever chip offers the instructions.
fn through_the_instructions<C: NumericInstructions>(
    chip: &C,
    layouter: &mut Layouter,
    x: u64,
    y: u64,
) -> Result<C::Num, Error>
where
    C::Num: Copy,
{
    chip.load_xor_table(layouter)?;
    let x = chip.load_private(layouter, Some(fe(x)))?;
    let y = chip.load_constant(layouter, fe(y))?;
    let sum = chip.add(layouter, x, y)?;
    let square = chip.mul(layouter, sum, sum)?;
    let out = chip.xor(layouter, square, y)?;
    let public = chip.load_public(layouter, 0)?;
    chip.expose_public(layouter, public, 0)?;
    Ok(out)
}

#[test]
fn the_chip_offers_the_numeric_instructions() {
    let mut meta = ConstraintSystem::new();
    let columns = declare(&mut meta);
    let config = configure(&mut meta, &columns, 2).unwrap();
    let chip = FieldChip::construct(config);
    let mut layouter = Layouter::new(meta, vec![vec![fe(0)]]);
    // (1 + 0)^2 XOR 0 = 1
    let out = through_the_instructions(&chip, &mut layouter, 1, 0).unwrap();
    assert_eq!(out.value, Some(fe(1)));
    assert_eq!(out.cell, Cell { column: config.xord, row: 6 });
    assert_eq!(layouter.rows(), 8);
    assert_eq!(layouter.verify(), Ok(()));
}
