use plonkish::column::{Column, ColumnKind};
use plonkish::error::{ConfigurationError, Error, SynthesisError};
use plonkish::field::FieldElement;
use plonkish::table::{build_xor_table, key_of, Tables, KEY_MODULUS};

fn fe(v: u64) -> FieldElement {
    FieldElement::from_u64(v)
}

fn table_column(index: usize) -> Column {
    Column { kind: ColumnKind::LookupTable, index }
}

#[test]
fn xor_table_of_width_two_has_sixteen_rows() {
    let table = build_xor_table(2);
    assert_eq!(table.len(), 16);
    assert_eq!(table.width(), 3);
    for i in 0..4u64 {
        for j in 0..4u64 {
            let row = (i * 4 + j) as usize;
            assert_eq!(table.get(row, 0), fe(i));
            assert_eq!(table.get(row, 1), fe(j));
            assert_eq!(table.get(row, 2), fe(i ^ j));
        }
    }
}

#[test]
fn xor_table_membership() {
    let table = build_xor_table(2);
    for i in 0..4u64 {
        for j in 0..4u64 {
            assert!(table.contains(&vec![fe(i), fe(j), fe(i ^ j)]));
            assert!(!table.contains(&vec![fe(i), fe(j), fe((i ^ j) + 1)]));
        }
    }
    assert!(!table.contains(&vec![fe(4), fe(0), fe(4)]));
    assert!(!table.contains(&vec![fe(0), fe(4), fe(4)]));
    assert!(!table.contains(&vec![fe(5), fe(7), fe(2)]));
    assert!(!table.contains(&vec![fe(1), fe(2)]));
    assert!(!table.contains(&vec![fe(1), fe(2), fe(3), fe(0)]));
}

#[test]
fn xor_table_sizes() {
    assert_eq!(build_xor_table(0).len(), 1);
    assert!(build_xor_table(0).contains(&vec![fe(0), fe(0), fe(0)]));
    assert_eq!(build_xor_table(1).len(), 4);
    assert_eq!(build_xor_table(3).len(), 64);
    let table = build_xor_table(3);
    assert_eq!(table.get(5 * 8 + 6, 2), fe(3));
    assert!(table.contains(&vec![fe(7), fe(7), fe(0)]));
    assert!(!table.contains(&vec![fe(8), fe(0), fe(8)]));
}

#[test]
fn tables_are_loaded_whole_and_once() {
    let table = build_xor_table(1);
    let columns = vec![table_column(0), table_column(1), table_column(2)];
    let mut tables = Tables::new(4);
    assert!(!tables.has_row(&columns, &vec![fe(1), fe(0), fe(1)]));

    assert_eq!(
        tables.populate(&vec![table_column(0), table_column(1)], &table),
        Err(Error::Configuration(ConfigurationError::TableWidthMismatch))
    );
    assert_eq!(
        tables.populate(&vec![table_column(0), table_column(1), table_column(4)], &table),
        Err(Error::Configuration(ConfigurationError::UndeclaredColumn))
    );
    assert_eq!(
        tables.populate(
            &vec![table_column(0), table_column(1), Column { kind: ColumnKind::Advice, index: 2 }],
            &table
        ),
        Err(Error::Configuration(ConfigurationError::UndeclaredColumn))
    );
    assert_eq!(
        tables.populate(&vec![table_column(0), table_column(1), table_column(0)], &table),
        Err(Error::Synthesis(SynthesisError::CellAlreadyAssigned))
    );
    // Nothing was written by the failed attempts.
    assert!(!tables.has_row(&columns, &vec![fe(1), fe(0), fe(1)]));

    assert_eq!(tables.populate(&columns, &table), Ok(()));
    assert!(tables.has_row(&columns, &vec![fe(1), fe(0), fe(1)]));
    assert!(tables.has_row(&columns, &vec![fe(1), fe(1), fe(0)]));
    assert!(!tables.has_row(&columns, &vec![fe(1), fe(1), fe(1)]));
    assert!(!tables.has_row(&columns, &vec![fe(2), fe(0), fe(2)]));
    // Columns in another order name another tuple.
    let swapped = vec![table_column(2), table_column(1), table_column(0)];
    assert!(tables.has_row(&swapped, &vec![fe(1), fe(0), fe(1)]));
    assert!(tables.has_row(&vec![table_column(2)], &vec![fe(1)]));
    assert!(!tables.has_row(&vec![table_column(3)], &vec![fe(0)]));
    assert!(tables.has_row(&vec![], &vec![]));

    assert_eq!(
        tables.populate(&vec![table_column(3), table_column(1), table_column(2)], &table),
        Err(Error::Synthesis(SynthesisError::CellAlreadyAssigned))
    );
    assert!(!tables.has_row(&vec![table_column(3)], &vec![fe(0)]));
}

#[test]
fn the_index_finds_what_a_scan_finds() {
    let table = build_xor_table(3);
    let columns = vec![table_column(0), table_column(1), table_column(2)];
    let mut tables = Tables::new(4);
    // Nothing is loaded: the index is empty.
    let index = tables.index(&columns);
    assert!(!tables.has_indexed_row(&index, &columns, &vec![fe(0), fe(0), fe(0)]));
    tables.populate(&columns, &table).unwrap();
    let index = tables.index(&columns);
    for i in 0..10u64 {
        for j in 0..10u64 {
            for k in 0..10u64 {
                let tuple = vec![fe(i), fe(j), fe(k)];
                let expected = i < 8 && j < 8 && k == i ^ j;
                assert_eq!(tables.has_row(&columns, &tuple), expected);
                assert_eq!(tables.has_indexed_row(&index, &columns, &tuple), expected);
            }
        }
    }
    // An index is made for one list of columns, in one order.
    let swapped = vec![table_column(2), table_column(0)];
    let index = tables.index(&swapped);
    assert!(tables.has_indexed_row(&index, &swapped, &vec![fe(3), fe(5)]));
    assert!(tables.has_indexed_row(&index, &swapped, &vec![fe(3), fe(6)]));
    assert!(!tables.has_indexed_row(&index, &swapped, &vec![fe(8), fe(0)]));
    // A column that is not populated has no rows.
    let partial = vec![table_column(0), table_column(3)];
    let index = tables.index(&partial);
    assert!(!tables.has_indexed_row(&index, &partial, &vec![fe(0), fe(0)]));
    assert!(!tables.has_row(&partial, &vec![fe(0), fe(0)]));
    // The empty tuple is a row of no columns.
    let index = tables.index(&vec![]);
    assert!(tables.has_indexed_row(&index, &vec![], &vec![]));
}

#[test]
fn the_index_matches_whole_values_and_not_their_keys() {
    // Two elements with the same low 32 bits have the same key.
    let low = fe(5);
    let high = fe((1 << 32) + 5);
    assert_eq!(key_of(&vec![low]), key_of(&vec![high]));
    let table = build_xor_table(3);
    let columns = vec![table_column(0), table_column(1), table_column(2)];
    let mut tables = Tables::new(3);
    tables.populate(&columns, &table).unwrap();
    let index = tables.index(&columns);
    assert!(tables.has_indexed_row(&index, &columns, &vec![low, fe(1), fe(4)]));
    assert!(!tables.has_indexed_row(&index, &columns, &vec![high, fe(1), fe(4)]));
}

#[test]
fn keys_fold_the_low_bits_of_the_components() {
    assert_eq!(key_of(&vec![]), 0);
    assert_eq!(key_of(&vec![fe(7)]), 7);
    assert_eq!(key_of(&vec![fe(7), fe(2)]), 7 * 31 + 2);
    assert_eq!(key_of(&vec![fe(1), fe(0), fe(0)]), 31 * 31);
    assert_eq!(key_of(&vec![fe(KEY_MODULUS)]), 0);
    assert_eq!(key_of(&vec![fe(u32::MAX as u64)]), 4);
    assert_eq!(key_of(&vec![fe(u32::MAX as u64), fe(1)]), 4 * 31 + 1);
    assert_eq!(key_of(&vec![fe((1 << 32) + 9)]), 9);
}

#[test]
fn rows_are_compared_component_by_component() {
    let table = build_xor_table(1);
    let columns = vec![table_column(0), table_column(1), table_column(2)];
    let mut tables = Tables::new(3);
    assert!(!tables.row_holds(&columns, &vec![fe(0), fe(0), fe(0)], 0));
    tables.populate(&columns, &table).unwrap();
    assert!(tables.row_holds(&columns, &vec![fe(0), fe(0), fe(0)], 0));
    assert!(tables.row_holds(&columns, &vec![fe(1), fe(0), fe(1)], 2));
    assert!(!tables.row_holds(&columns, &vec![fe(1), fe(0), fe(1)], 1));
    assert!(!tables.row_holds(&columns, &vec![fe(1), fe(0), fe(1)], 4));
    assert_eq!(tables.column(table_column(2)), Some(&vec![fe(0), fe(1), fe(1), fe(0)]));
    assert_eq!(tables.column(table_column(3)), None);
    assert_eq!(tables.column(Column { kind: ColumnKind::Advice, index: 0 }), None);
}
