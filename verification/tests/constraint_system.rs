use plonkish::column::{Column, ColumnKind, Selector};
use plonkish::constraint_system::{ConstraintSystem, LookupInput};
use plonkish::error::{ConfigurationError, Error};
use plonkish::expression::Expression;

fn config(e: ConfigurationError) -> Error {
    Error::Configuration(e)
}

#[test]
fn columns_are_numbered_by_kind() {
    let mut cs = ConstraintSystem::new();
    assert_eq!(
        cs.declare_column(ColumnKind::Advice),
        Ok(Column { kind: ColumnKind::Advice, index: 0 })
    );
    assert_eq!(
        cs.declare_column(ColumnKind::Fixed),
        Ok(Column { kind: ColumnKind::Fixed, index: 0 })
    );
    assert_eq!(
        cs.declare_column(ColumnKind::Advice),
        Ok(Column { kind: ColumnKind::Advice, index: 1 })
    );
    assert_eq!(
        cs.declare_column(ColumnKind::Instance),
        Ok(Column { kind: ColumnKind::Instance, index: 0 })
    );
    assert_eq!(
        cs.declare_column(ColumnKind::LookupTable),
        Ok(Column { kind: ColumnKind::LookupTable, index: 0 })
    );
    assert_eq!(cs.table_count(), 1);
    assert!(cs.declares(Column { kind: ColumnKind::Advice, index: 1 }));
    assert!(!cs.declares(Column { kind: ColumnKind::Advice, index: 2 }));
    assert!(!cs.declares(Column { kind: ColumnKind::Fixed, index: 1 }));
}

#[test]
fn equality_is_enabled_once() {
    let mut cs = ConstraintSystem::new();
    let advice = cs.declare_column(ColumnKind::Advice).unwrap();
    let table = cs.declare_column(ColumnKind::LookupTable).unwrap();
    assert!(!cs.equality_enabled(advice));
    assert_eq!(cs.enable_equality(advice), Ok(()));
    assert!(cs.equality_enabled(advice));
    assert_eq!(cs.enable_equality(advice), Err(config(ConfigurationError::DuplicateEquality)));
    assert_eq!(
        cs.enable_equality(Column { kind: ColumnKind::Advice, index: 1 }),
        Err(config(ConfigurationError::UndeclaredColumn))
    );
    assert_eq!(
        cs.enable_equality(Column { kind: ColumnKind::Instance, index: 0 }),
        Err(config(ConfigurationError::UndeclaredColumn))
    );
    assert_eq!(cs.enable_equality(table), Err(config(ConfigurationError::UndeclaredColumn)));
    assert!(!cs.equality_enabled(table));
}

#[test]
fn selectors_are_numbered_in_order() {
    let mut cs = ConstraintSystem::new();
    assert_eq!(cs.declare_selector(false), Ok(Selector { index: 0, complex: false }));
    assert_eq!(cs.declare_selector(true), Ok(Selector { index: 1, complex: true }));
    assert!(cs.declares_selector(Selector { index: 0, complex: false }));
    assert!(!cs.declares_selector(Selector { index: 0, complex: true }));
    assert!(!cs.declares_selector(Selector { index: 2, complex: false }));
}

#[test]
fn gates_are_stored_as_data() {
    let mut cs = ConstraintSystem::new();
    let a = cs.declare_column(ColumnKind::Advice).unwrap();
    let b = cs.declare_column(ColumnKind::Advice).unwrap();
    let s = cs.declare_selector(false).unwrap();
    assert!(!cs.guards_a_gate(s));
    assert_eq!(
        cs.create_gate("mul", s, vec![Expression::cur(a).times(Expression::cur(b)).minus(Expression::next(a))]),
        Ok(())
    );
    assert!(cs.guards_a_gate(s));
    assert_eq!(cs.gates().len(), 1);
    assert_eq!(cs.gates()[0].name, "mul");
    assert_eq!(cs.gates()[0].selector, s);
    assert_eq!(
        cs.gates()[0].polys,
        vec![Expression::cur(a).times(Expression::cur(b)).minus(Expression::next(a))]
    );
}

#[test]
fn gates_name_declared_things_only() {
    let mut cs = ConstraintSystem::new();
    let a = cs.declare_column(ColumnKind::Advice).unwrap();
    let t = cs.declare_column(ColumnKind::LookupTable).unwrap();
    let simple = cs.declare_selector(false).unwrap();
    let complex = cs.declare_selector(true).unwrap();
    assert_eq!(
        cs.create_gate("g", Selector { index: 2, complex: false }, vec![Expression::cur(a)]),
        Err(config(ConfigurationError::UndeclaredSelector))
    );
    assert_eq!(
        cs.create_gate("g", Selector { index: 0, complex: true }, vec![Expression::cur(a)]),
        Err(config(ConfigurationError::UndeclaredSelector))
    );
    assert_eq!(
        cs.create_gate(
            "g",
            simple,
            vec![Expression::cur(a).plus(Expression::cur(Column { kind: ColumnKind::Fixed, index: 0 }))]
        ),
        Err(config(ConfigurationError::UndeclaredColumn))
    );
    assert_eq!(
        cs.create_gate("g", simple, vec![Expression::cur(t)]),
        Err(config(ConfigurationError::UndeclaredColumn))
    );
    assert_eq!(cs.gates().len(), 0);
    assert_eq!(cs.create_gate("first", simple, vec![Expression::cur(a)]), Ok(()));
    assert_eq!(
        cs.create_gate("second", simple, vec![Expression::next(a)]),
        Err(config(ConfigurationError::SelectorMisuse))
    );
    // A complex selector may guard several gates.
    assert_eq!(cs.create_gate("third", complex, vec![Expression::cur(a)]), Ok(()));
    assert_eq!(cs.create_gate("fourth", complex, vec![]), Ok(()));
    assert_eq!(cs.gates().len(), 3);
}

#[test]
fn lookups_need_a_complex_selector_and_table_columns() {
    let mut cs = ConstraintSystem::new();
    let a = cs.declare_column(ColumnKind::Advice).unwrap();
    let t = cs.declare_column(ColumnKind::LookupTable).unwrap();
    let simple = cs.declare_selector(false).unwrap();
    let complex = cs.declare_selector(true).unwrap();
    assert_eq!(
        cs.add_lookup("l", simple, vec![LookupInput { input: Expression::cur(a), table: t }]),
        Err(config(ConfigurationError::SelectorMisuse))
    );
    assert_eq!(
        cs.add_lookup(
            "l",
            Selector { index: 5, complex: true },
            vec![LookupInput { input: Expression::cur(a), table: t }]
        ),
        Err(config(ConfigurationError::UndeclaredSelector))
    );
    assert_eq!(
        cs.add_lookup("l", complex, vec![LookupInput { input: Expression::cur(a), table: a }]),
        Err(config(ConfigurationError::UndeclaredColumn))
    );
    assert_eq!(
        cs.add_lookup(
            "l",
            complex,
            vec![LookupInput {
                input: Expression::cur(a),
                table: Column { kind: ColumnKind::LookupTable, index: 1 }
            }]
        ),
        Err(config(ConfigurationError::UndeclaredColumn))
    );
    assert_eq!(
        cs.add_lookup("l", complex, vec![LookupInput { input: Expression::cur(t), table: t }]),
        Err(config(ConfigurationError::UndeclaredColumn))
    );
    assert_eq!(cs.lookups().len(), 0);
    assert_eq!(
        cs.add_lookup("l", complex, vec![LookupInput { input: Expression::cur(a), table: t }]),
        Ok(())
    );
    assert_eq!(cs.lookups().len(), 1);
    assert_eq!(cs.lookups()[0].name, "l");
    assert_eq!(cs.lookups()[0].selector, complex);
}

#[test]
fn a_frozen_system_takes_no_declarations() {
    let mut cs = ConstraintSystem::new();
    let a = cs.declare_column(ColumnKind::Advice).unwrap();
    let t = cs.declare_column(ColumnKind::LookupTable).unwrap();
    let simple = cs.declare_selector(false).unwrap();
    let complex = cs.declare_selector(true).unwrap();
    assert!(!cs.is_frozen());
    cs.freeze();
    assert!(cs.is_frozen());
    let frozen = config(ConfigurationError::Frozen);
    assert_eq!(cs.declare_column(ColumnKind::Advice), Err(frozen));
    assert_eq!(cs.declare_selector(true), Err(frozen));
    assert_eq!(cs.enable_equality(a), Err(frozen));
    assert_eq!(cs.create_gate("g", simple, vec![Expression::cur(a)]), Err(frozen));
    assert_eq!(
        cs.add_lookup("l", complex, vec![LookupInput { input: Expression::cur(a), table: t }]),
        Err(frozen)
    );
    assert!(!cs.declares(Column { kind: ColumnKind::Advice, index: 1 }));
    assert!(!cs.equality_enabled(a));
    assert_eq!(cs.gates().len(), 0);
    assert_eq!(cs.lookups().len(), 0);
}
