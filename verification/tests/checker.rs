use plonkish::checker::{verify, Violation};
use plonkish::column::{Cell, Column, ColumnKind, Selector};
use plonkish::constraint_system::{ConstraintSystem, LookupInput};
use plonkish::equality::{label_classes, list_endpoints, EqualityConstraint};
use plonkish::expression::{Expression, Query};
use plonkish::field::FieldElement;
use plonkish::layouter::Layouter;
use plonkish::table::build_xor_table;

fn fe(v: u64) -> FieldElement {
    FieldElement::from_u64(v)
}

struct Shape {
    a: Column,
    b: Column,
    c: Column,
    tables: [Column; 3],
    double: Selector,
    square: Selector,
    lookup: Selector,
}

/// Gate `double`: b = 2 * a on the same row. Gate `square`, with two
/// polynomials: a * a = b, and the a of the next row equals b.
/// Lookup `xor`: (a, b, c) is a row of the XOR table.
fn layouter() -> (Layouter, Shape) {
    let mut cs = ConstraintSystem::new();
    let a = cs.declare_column(ColumnKind::Advice).unwrap();
    let b = cs.declare_column(ColumnKind::Advice).unwrap();
    let c = cs.declare_column(ColumnKind::Advice).unwrap();
    let tables = [
        cs.declare_column(ColumnKind::LookupTable).unwrap(),
        cs.declare_column(ColumnKind::LookupTable).unwrap(),
        cs.declare_column(ColumnKind::LookupTable).unwrap(),
    ];
    for column in [a, b, c] {
        cs.enable_equality(column).unwrap();
    }
    let double = cs.declare_selector(false).unwrap();
    let square = cs.declare_selector(false).unwrap();
    let lookup = cs.declare_selector(true).unwrap();
    cs.create_gate(
        "double",
        double,
        vec![Expression::Constant(fe(2)).times(Expression::cur(a)).minus(Expression::cur(b))],
    )
    .unwrap();
    cs.create_gate(
        "square",
        square,
        vec![
            Expression::cur(a).times(Expression::cur(a)).minus(Expression::cur(b)),
            Expression::next(a).minus(Expression::cur(b)),
        ],
    )
    .unwrap();
    cs.add_lookup(
        "xor",
        lookup,
        vec![
            LookupInput { input: Expression::cur(a), table: tables[0] },
            LookupInput { input: Expression::cur(b), table: tables[1] },
            LookupInput { input: Expression::cur(c), table: tables[2] },
        ],
    )
    .unwrap();
    let mut layouter = Layouter::new(cs, vec![]);
    layouter.assign_table(&tables.to_vec(), &build_xor_table(2)).unwrap();
    (layouter, Shape { a, b, c, tables, double, square, lookup })
}

/// One row with the given values in a, b and c, and the selector on.
fn row(
    layouter: &mut Layouter,
    shape: &Shape,
    selector: Option<Selector>,
    values: [Option<u64>; 3],
) -> [Cell; 3] {
    let mut region = layouter.open_region("row");
    if let Some(selector) = selector {
        region.enable_selector(layouter, selector, 0).unwrap();
    }
    let cells = [
        region.assign_advice(layouter, shape.a, 0, values[0].map(fe)).unwrap(),
        region.assign_advice(layouter, shape.b, 0, values[1].map(fe)).unwrap(),
        region.assign_advice(layouter, shape.c, 0, values[2].map(fe)).unwrap(),
    ];
    layouter.close_region(region);
    cells
}

fn equal(layouter: &mut Layouter, pairs: &[(Cell, Cell)]) {
    let mut region = layouter.open_region("equal");
    for (x, y) in pairs {
        region.constrain_equal(layouter, *x, *y).unwrap();
    }
    layouter.close_region(region);
}

#[test]
fn satisfied_gates_yield_nothing() {
    let (mut layouter, shape) = layouter();
    row(&mut layouter, &shape, Some(shape.double), [Some(21), Some(42), Some(0)]);
    row(&mut layouter, &shape, Some(shape.square), [Some(5), Some(25), Some(0)]);
    row(&mut layouter, &shape, None, [Some(25), Some(1), Some(1)]);
    assert_eq!(layouter.verify(), Ok(()));
}

#[test]
fn a_gate_is_checked_only_where_its_selector_is_on() {
    let (mut layouter, shape) = layouter();
    row(&mut layouter, &shape, None, [Some(21), Some(43), Some(0)]);
    row(&mut layouter, &shape, Some(shape.lookup), [Some(2), Some(3), Some(1)]);
    assert_eq!(layouter.verify(), Ok(()));
}

#[test]
fn a_broken_gate_is_named_with_its_row() {
    let (mut layouter, shape) = layouter();
    row(&mut layouter, &shape, Some(shape.double), [Some(21), Some(42), Some(0)]);
    row(&mut layouter, &shape, Some(shape.double), [Some(21), Some(43), Some(0)]);
    assert_eq!(
        layouter.verify(),
        Err(vec![Violation::Gate { name: "double".to_string(), row: 1 }])
    );
}

#[test]
fn each_polynomial_of_a_gate_is_checked() {
    let (mut layouter, shape) = layouter();
    row(&mut layouter, &shape, Some(shape.square), [Some(5), Some(25), Some(0)]);
    row(&mut layouter, &shape, Some(shape.square), [Some(26), Some(7), Some(0)]);
    row(&mut layouter, &shape, None, [Some(7), Some(0), Some(0)]);
    // Row 0: the square holds, the next a is 26 and not 25.
    // Row 1: the square fails, the next a is 7 as it should be.
    assert_eq!(
        layouter.verify(),
        Err(vec![
            Violation::Gate { name: "square".to_string(), row: 0 },
            Violation::Gate { name: "square".to_string(), row: 1 },
        ])
    );
}

#[test]
fn a_cell_without_a_value_is_a_synthesis_violation() {
    let (mut layouter, shape) = layouter();
    row(&mut layouter, &shape, Some(shape.double), [None, Some(42), Some(0)]);
    row(&mut layouter, &shape, Some(shape.square), [Some(5), Some(25), Some(0)]);
    // In row 1 the second polynomial reads a in row 2, which nobody wrote.
    assert_eq!(
        layouter.verify(),
        Err(vec![
            Violation::Synthesis { query: Query { column: shape.a, rotation: 0 }, row: 0 },
            Violation::Synthesis { query: Query { column: shape.a, rotation: 1 }, row: 1 },
        ])
    );
}

#[test]
fn a_cell_without_a_value_does_no_harm_where_nothing_reads_it() {
    let (mut layouter, shape) = layouter();
    row(&mut layouter, &shape, None, [None, None, None]);
    row(&mut layouter, &shape, Some(shape.double), [Some(1), Some(2), None]);
    assert_eq!(layouter.verify(), Ok(()));
}

#[test]
fn a_lookup_tests_membership_of_the_whole_tuple() {
    let (mut layouter, shape) = layouter();
    row(&mut layouter, &shape, Some(shape.lookup), [Some(2), Some(3), Some(1)]);
    row(&mut layouter, &shape, Some(shape.lookup), [Some(2), Some(3), Some(2)]);
    row(&mut layouter, &shape, Some(shape.lookup), [Some(4), Some(0), Some(4)]);
    row(&mut layouter, &shape, Some(shape.lookup), [Some(0), Some(0), Some(0)]);
    row(&mut layouter, &shape, Some(shape.lookup), [Some(1), None, Some(0)]);
    row(&mut layouter, &shape, None, [Some(9), Some(9), Some(9)]);
    assert_eq!(
        layouter.verify(),
        Err(vec![
            Violation::Lookup { name: "xor".to_string(), row: 1 },
            Violation::Lookup { name: "xor".to_string(), row: 2 },
            Violation::Synthesis { query: Query { column: shape.b, rotation: 0 }, row: 4 },
        ])
    );
}

#[test]
fn a_lookup_in_an_empty_table_fails() {
    let mut cs = ConstraintSystem::new();
    let a = cs.declare_column(ColumnKind::Advice).unwrap();
    let t = cs.declare_column(ColumnKind::LookupTable).unwrap();
    let s = cs.declare_selector(true).unwrap();
    cs.add_lookup("member", s, vec![LookupInput { input: Expression::cur(a), table: t }]).unwrap();
    let mut layouter = Layouter::new(cs, vec![]);
    let mut region = layouter.open_region("row");
    region.enable_selector(&layouter, s, 0).unwrap();
    region.assign_advice(&layouter, a, 0, Some(fe(0))).unwrap();
    layouter.close_region(region);
    assert_eq!(
        layouter.verify(),
        Err(vec![Violation::Lookup { name: "member".to_string(), row: 0 }])
    );
}

#[test]
fn equality_is_transitive() {
    let (mut layouter, shape) = layouter();
    let [x, y, z] = row(&mut layouter, &shape, None, [Some(6), Some(6), Some(6)]);
    equal(&mut layouter, &[(x, y), (y, z)]);
    assert_eq!(layouter.verify(), Ok(()));

    let (mut layouter, shape) = self::layouter();
    let [x, y, z] = row(&mut layouter, &shape, None, [Some(6), Some(6), Some(7)]);
    equal(&mut layouter, &[(x, y), (y, z)]);
    assert_eq!(layouter.verify(), Err(vec![Violation::Equality { cells: vec![x, y, z] }]));

    // X and Z differ and no constraint names the two together.
    let (mut layouter, shape) = self::layouter();
    let [x, y, z] = row(&mut layouter, &shape, None, [Some(6), None, Some(7)]);
    equal(&mut layouter, &[(x, y), (z, y)]);
    assert_eq!(
        layouter.verify(),
        Err(vec![
            Violation::Synthesis { query: Query { column: shape.b, rotation: 0 }, row: 0 },
            Violation::Equality { cells: vec![x, y, z] },
        ])
    );
}

#[test]
fn equality_is_symmetric() {
    let (mut layouter, shape) = layouter();
    let [x, y, _] = row(&mut layouter, &shape, None, [Some(6), Some(7), Some(0)]);
    equal(&mut layouter, &[(x, y)]);
    let forward = layouter.verify();
    let (mut layouter, shape) = self::layouter();
    let [x, y, _] = row(&mut layouter, &shape, None, [Some(6), Some(7), Some(0)]);
    equal(&mut layouter, &[(y, x)]);
    let backward = layouter.verify();
    assert_eq!(forward, Err(vec![Violation::Equality { cells: vec![x, y] }]));
    assert_eq!(backward, Err(vec![Violation::Equality { cells: vec![y, x] }]));
}

#[test]
fn classes_are_reported_one_by_one() {
    let (mut layouter, shape) = layouter();
    let [a0, b0, c0] = row(&mut layouter, &shape, None, [Some(1), Some(2), Some(3)]);
    let [a1, b1, c1] = row(&mut layouter, &shape, None, [Some(1), Some(2), Some(4)]);
    let [a2, b2, c2] = row(&mut layouter, &shape, None, [Some(9), Some(2), Some(3)]);
    // Three classes: the a cells, the b cells, the c cells. They grow out of
    // order, and the classes of a and of c only join up at the end.
    equal(&mut layouter, &[(c0, c1), (a0, a1), (b0, b1), (b1, b2), (a2, a1), (c2, c1), (a0, a0)]);
    assert_eq!(
        layouter.verify(),
        Err(vec![
            Violation::Equality { cells: vec![c0, c1, c2] },
            Violation::Equality { cells: vec![a0, a1, a2] },
        ])
    );
}

#[test]
fn class_labels_name_the_first_cell_of_each_class() {
    let cell = |row: usize| Cell { column: Column { kind: ColumnKind::Advice, index: 0 }, row };
    let pair = |x: usize, y: usize| EqualityConstraint { left: cell(x), right: cell(y) };
    let constraints = vec![pair(0, 1), pair(2, 3), pair(4, 4), pair(3, 1), pair(5, 4)];
    let cells = list_endpoints(&constraints);
    assert_eq!(
        cells,
        vec![cell(0), cell(1), cell(2), cell(3), cell(4), cell(4), cell(3), cell(1), cell(5), cell(4)]
    );
    assert_eq!(label_classes(&constraints, &cells), vec![0, 0, 0, 0, 4, 4, 0, 0, 4, 4]);
    assert_eq!(label_classes(&vec![], &vec![]), Vec::<usize>::new());
}

#[test]
fn all_violations_are_collected_in_order() {
    let (mut layouter, shape) = layouter();
    let [x, y, _] = row(&mut layouter, &shape, Some(shape.lookup), [Some(9), Some(1), Some(8)]);
    row(&mut layouter, &shape, Some(shape.double), [Some(1), Some(3), Some(0)]);
    equal(&mut layouter, &[(x, y)]);
    row(&mut layouter, &shape, Some(shape.square), [Some(2), Some(5), Some(0)]);
    row(&mut layouter, &shape, None, [Some(5), Some(0), Some(0)]);
    // Gates row by row, then lookups, then equalities.
    assert_eq!(
        layouter.verify(),
        Err(vec![
            Violation::Gate { name: "double".to_string(), row: 1 },
            Violation::Gate { name: "square".to_string(), row: 2 },
            Violation::Lookup { name: "xor".to_string(), row: 0 },
            Violation::Equality { cells: vec![x, y] },
        ])
    );
}

#[test]
fn checking_twice_gives_the_same_list() {
    let (mut layouter, shape) = layouter();
    let [x, y, _] = row(&mut layouter, &shape, Some(shape.lookup), [Some(9), Some(1), Some(8)]);
    row(&mut layouter, &shape, Some(shape.double), [None, Some(3), Some(0)]);
    equal(&mut layouter, &[(x, y)]);
    let first = layouter.verify();
    let second = layouter.verify();
    assert!(first.is_err());
    assert_eq!(first, second);
    let third = verify(
        layouter.constraint_system(),
        layouter.assignment(),
        layouter.equalities(),
        layouter.tables(),
    );
    assert_eq!(first, third);

    let (mut layouter, shape) = self::layouter();
    row(&mut layouter, &shape, Some(shape.double), [Some(1), Some(2), Some(0)]);
    assert_eq!(layouter.verify(), Ok(()));
    assert_eq!(layouter.verify(), Ok(()));
    let _ = shape.tables;
}
