use plonkish::checker::Violation;
use plonkish::chip::{FieldChip, Number};
use plonkish::column::{Cell, ColumnKind};
use plonkish::constraint_system::ConstraintSystem;
use plonkish::error::Error;
use plonkish::field::FieldElement;
use plonkish::layouter::Layouter;

struct Pythagore {
    constant: FieldElement,
    a: Option<FieldElement>,
    b: Option<FieldElement>,
}

struct Laid {
    layouter: Layouter,
    lhs: Cell,
    rhs: Cell,
    ab2const: Number,
    c2: Number,
}

fn synthesize(circuit: &Pythagore, public_inputs: Vec<FieldElement>) -> Result<Laid, Error> {
    let mut meta = ConstraintSystem::new();
    let advice = [
        meta.declare_column(ColumnKind::Advice)?,
        meta.declare_column(ColumnKind::Advice)?,
    ];
    let instance = meta.declare_column(ColumnKind::Instance)?;
    let constant = meta.declare_column(ColumnKind::Fixed)?;
    let xor_table = [
        meta.declare_column(ColumnKind::LookupTable)?,
        meta.declare_column(ColumnKind::LookupTable)?,
        meta.declare_column(ColumnKind::LookupTable)?,
    ];
    let xord = meta.declare_column(ColumnKind::Advice)?;
    let bitsize = 2;
    let config = FieldChip::configure(&mut meta, advice, instance, constant, bitsize, xor_table, xord)?;

    let field_chip = FieldChip::construct(config);
    let mut layouter = Layouter::new(meta, vec![public_inputs]);
    field_chip.load_xor_table(&mut layouter)?;
    let a = field_chip.load_private(&mut layouter, circuit.a)?;
    let b = field_chip.load_private(&mut layouter, circuit.b)?;
    let c = field_chip.load_public(&mut layouter, 0)?;
    let constant = field_chip.load_constant(&mut layouter, circuit.constant)?;

    let bsquare = field_chip.mul(&mut layouter, b, b)?;
    let asquare = field_chip.mul(&mut layouter, a, a)?;
    let ab2 = field_chip.add(&mut layouter, asquare, bsquare)?;
    let ab2const = field_chip.add(&mut layouter, ab2, constant)?;
    let c2 = field_chip.mul(&mut layouter, c, c)?;

    let mut region = layouter.open_region("check");
    let lhs = region.assign_advice(&layouter, field_chip.config().advices[0], 0, ab2const.value)?;
    let rhs = region.assign_advice(&layouter, field_chip.config().advices[1], 0, c2.value)?;
    region.constrain_equal(&layouter, ab2const.cell, lhs)?;
    region.constrain_equal(&layouter, c2.cell, rhs)?;
    region.constrain_equal(&layouter, lhs, rhs)?;
    layouter.close_region(region);

    let _ = field_chip.xor(&mut layouter, a, b)?;
    Ok(Laid { layouter, lhs, rhs, ab2const, c2 })
}

#[test]
fn pythagorean() {
    let constant = FieldElement::from_u64(3);
    let a = FieldElement::from_u64(2);
    let b = FieldElement::from_u64(3);
    let input = FieldElement::from_u64(4);

    let circuit = Pythagore { constant, a: Some(a), b: Some(b) };
    let laid = synthesize(&circuit, vec![input]).unwrap();
    assert_eq!(laid.layouter.verify(), Ok(()));

    // bad inputs
    let laid = synthesize(&circuit, vec![input.add(&FieldElement::from_u64(1))]).unwrap();
    assert_eq!(
        laid.layouter.verify(),
        Err(vec![Violation::Equality { cells: vec![laid.ab2const.cell, laid.lhs, laid.c2.cell, laid.rhs] }])
    );
}
