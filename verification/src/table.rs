//! Lookup tables: the rows that a lookup argument may match, built in full
//! before they are used, and the table columns that they populate.
use crate::column::{Column, ColumnKind};
use crate::error::{ConfigurationError, Error, SynthesisError};
use crate::field::FieldElement;
use std::collections::HashMap;
use vstd::arithmetic::div_mod::{
    lemma_fundamental_div_mod, lemma_fundamental_div_mod_converse, lemma_mod_bound,
};
use vstd::arithmetic::power2::{
    lemma2_to64, lemma_pow2_adds, lemma_pow2_pos, lemma_pow2_strictly_increases,
    lemma_pow2_unfold, pow2,
};
use vstd::prelude::*;

verus! {

broadcast use vstd::std_specs::hash::group_hash_axioms;

/// The widest operands for which an XOR table can be built: its `4^width`
/// rows have to be countable in a `usize`.
pub const MAX_XOR_BITS: usize = 15;

/// The residues of a list of field elements.
pub open spec fn values_view(values: Seq<FieldElement>) -> Seq<nat> {
    values.map_values(|v: FieldElement| v@)
}

/// The residues of a list of rows.
pub open spec fn rows_view(rows: Seq<Vec<FieldElement>>) -> Seq<Seq<nat>> {
    rows.map_values(|r: Vec<FieldElement>| values_view(r@))
}

/// The bitwise XOR of two small numbers.
pub open spec fn xor_of(i: nat, j: nat) -> nat {
    (i as u64 ^ j as u64) as nat
}

/// The XOR table for operands of `bit_width` bits: one row `(i, j, i XOR j)`
/// for each pair of operands, at row index `i * 2^bit_width + j`.
pub open spec fn xor_table(bit_width: nat) -> Seq<Seq<nat>> {
    Seq::new(
        pow2(2 * bit_width),
        |r: int|
            seq![
                (r / pow2(bit_width) as int) as nat,
                (r % pow2(bit_width) as int) as nat,
                xor_of((r / pow2(bit_width) as int) as nat, (r % pow2(bit_width) as int) as nat),
            ],
    )
}

/// The XOR table for operands of `bit_width` bits has `4^bit_width` rows,
/// and a triple is one of them exactly when its first two components have
/// at most `bit_width` bits and the third is their XOR.
pub proof fn lemma_xor_table_rows(bit_width: nat, i: nat, j: nat, k: nat)
    ensures
        xor_table(bit_width).len() == pow2(bit_width) * pow2(bit_width),
        xor_table(bit_width).contains(seq![i, j, k]) <==> i < pow2(bit_width) && j < pow2(
            bit_width,
        ) && k == xor_of(i, j),
{
    let size = pow2(bit_width) as int;
    let table = xor_table(bit_width);
    lemma_pow2_adds(bit_width, bit_width);
    lemma_pow2_pos(bit_width);
    if i < size && j < size && k == xor_of(i, j) {
        let r = i * size + j;
        lemma_fundamental_div_mod_converse(r, size, i as int, j as int);
        assert(0 <= r < size * size) by (nonlinear_arith)
            requires
                r == i * size + j,
                0 <= i < size,
                0 <= j < size,
        ;
        assert(table[r] =~= seq![i, j, k]);
    }
    if table.contains(seq![i, j, k]) {
        let r = choose|r: int| 0 <= r < table.len() && table[r] == seq![i, j, k];
        assert(table[r][0] == i && table[r][1] == j && table[r][2] == k);
        lemma_row_index_splits(r, size);
    }
}

/// A row index below `size * size` splits into two digits below `size`.
proof fn lemma_row_index_splits(r: int, size: int)
    requires
        0 < size,
        0 <= r < size * size,
    ensures
        0 <= r / size < size,
        0 <= r % size < size,
{
    lemma_fundamental_div_mod(r, size);
    lemma_mod_bound(r, size);
    assert(0 <= r / size < size) by (nonlinear_arith)
        requires
            0 < size,
            0 <= r < size * size,
            r == size * (r / size) + r % size,
            0 <= r % size < size,
    ;
}

/// An ordered list of rows of one width, immutable once built.
#[derive(Debug)]
pub struct Table {
    width: usize,
    rows: Vec<Vec<FieldElement>>,
}

impl View for Table {
    type V = Seq<Seq<nat>>;

    closed spec fn view(&self) -> Seq<Seq<nat>> {
        rows_view(self.rows@)
    }
}

impl Table {
    /// The number of components of each row.
    pub closed spec fn spec_width(&self) -> usize {
        self.width
    }

    /// Every row has the table's width.
    pub closed spec fn wf(&self) -> bool {
        forall|r: int| 0 <= r < self.rows@.len() ==> (#[trigger] self.rows@[r])@.len() == self.width
    }

    /// In a well-formed table every row of the view has the table's width.
    pub proof fn lemma_row_widths(&self)
        requires
            self.wf(),
        ensures
            forall|r: int| 0 <= r < self@.len() ==> (#[trigger] self@[r]).len() == self.spec_width(),
    {
    }

    /// The number of components of each row.
    #[verifier::when_used_as_spec(spec_width)]
    pub fn width(&self) -> (w: usize)
        ensures
            w == self.spec_width(),
    {
        self.width
    }

    /// The number of rows.
    pub fn len(&self) -> (n: usize)
        ensures
            n == self@.len(),
    {
        self.rows.len()
    }

    /// The component at `position` of row `row`.
    pub fn get(&self, row: usize, position: usize) -> (v: FieldElement)
        requires
            self.wf(),
            row < self@.len(),
            position < self.spec_width(),
        ensures
            v@ == self@[row as int][position as int],
    {
        self.rows[row][position]
    }

    /// Whether some row of the table equals the tuple, component by
    /// component.
    pub fn contains(&self, tuple: &Vec<FieldElement>) -> (found: bool)
        requires
            self.wf(),
        ensures
            found == self@.contains(values_view(tuple@)),
    {
        if tuple.len() != self.width {
            proof {
                if self@.contains(values_view(tuple@)) {
                    let r = choose|r: int| 0 <= r < self@.len() && self@[r] == values_view(tuple@);
                    assert(self.rows@[r]@.len() == self.width);
                    assert(self@[r].len() == self.rows@[r]@.len());
                    assert(values_view(tuple@).len() == tuple@.len());
                }
            }
            return false;
        }
        let mut r: usize = 0;
        while r < self.rows.len()
            invariant
                r <= self.rows.len(),
                self.wf(),
                tuple.len() == self.width,
                forall|q: int| 0 <= q < r ==> self@[q] != values_view(tuple@),
            decreases self.rows.len() - r,
        {
            let row = &self.rows[r];
            let mut k: usize = 0;
            let mut same = true;
            while k < row.len() && same
                invariant
                    k <= row.len(),
                    row.len() == tuple.len(),
                    same ==> forall|p: int| 0 <= p < k ==> row@[p]@ == tuple@[p]@,
                    !same ==> values_view(row@) != values_view(tuple@),
                decreases row.len() - k,
            {
                if !row[k].same(&tuple[k]) {
                    same = false;
                    assert(values_view(row@)[k as int] != values_view(tuple@)[k as int]);
                }
                k += 1;
            }
            if same {
                assert(values_view(row@) =~= values_view(tuple@));
                assert(self@[r as int] == values_view(tuple@));
                return true;
            }
            r += 1;
        }
        false
    }
}

/// Two to the power `bits`.
fn power_of_two(bits: usize) -> (size: u64)
    requires
        bits <= MAX_XOR_BITS,
    ensures
        size == pow2(bits as nat),
        0 < size <= 0x8000,
{
    let mut size: u64 = 1;
    let mut k: usize = 0;
    proof {
        lemma2_to64();
    }
    while k < bits
        invariant
            k <= bits <= MAX_XOR_BITS,
            size == pow2(k as nat),
            0 < size <= pow2(15),
            pow2(15) == 0x8000,
        decreases bits - k,
    {
        proof {
            lemma_pow2_unfold((k + 1) as nat);
            if k + 1 < 15 {
                lemma_pow2_strictly_increases((k + 1) as nat, 15);
            }
        }
        size = size * 2;
        k += 1;
    }
    size
}

/// Builds the XOR table for operands of `bit_width` bits: all
/// `2^bit_width * 2^bit_width` rows `(i, j, i XOR j)`, ordered by `i`, then
/// by `j`.
pub fn build_xor_table(bit_width: usize) -> (table: Table)
    requires
        bit_width <= MAX_XOR_BITS,
    ensures
        table.wf(),
        table.spec_width() == 3,
        table@ == xor_table(bit_width as nat),
{
    let size = power_of_two(bit_width);
    let mut rows: Vec<Vec<FieldElement>> = Vec::new();
    let mut i: u64 = 0;
    proof {
        lemma_pow2_adds(bit_width as nat, bit_width as nat);
    }
    while i < size
        invariant
            i <= size,
            size == pow2(bit_width as nat),
            0 < size <= 0x8000,
            pow2(2 * bit_width as nat) == size * size,
            rows@.len() == i * size,
            forall|r: int| 0 <= r < rows@.len() ==> (#[trigger] rows@[r])@.len() == 3,
            forall|r: int|
                0 <= r < rows@.len() ==> values_view((#[trigger] rows@[r])@) == xor_table(
                    bit_width as nat,
                )[r],
        decreases size - i,
    {
        let mut j: u64 = 0;
        while j < size
            invariant
                i < size,
                j <= size,
                size == pow2(bit_width as nat),
                0 < size <= 0x8000,
                pow2(2 * bit_width as nat) == size * size,
                rows@.len() == i * size + j,
                forall|r: int| 0 <= r < rows@.len() ==> (#[trigger] rows@[r])@.len() == 3,
                forall|r: int|
                    0 <= r < rows@.len() ==> values_view((#[trigger] rows@[r])@) == xor_table(
                        bit_width as nat,
                    )[r],
            decreases size - j,
        {
            let mut row: Vec<FieldElement> = Vec::new();
            row.push(FieldElement::from_u64(i));
            row.push(FieldElement::from_u64(j));
            row.push(FieldElement::from_u64(i ^ j));
            proof {
                let r = i * size + j;
                lemma_fundamental_div_mod_converse(r, size as int, i as int, j as int);
                assert(r < size * size) by (nonlinear_arith)
                    requires
                        r == i * size + j,
                        i < size,
                        j < size,
                        0 <= i,
                        0 <= j,
                ;
                assert(values_view(row@) =~= xor_table(bit_width as nat)[r]);
            }
            rows.push(row);
            j += 1;
        }
        proof {
            assert(i * size + size == (i + 1) * size) by (nonlinear_arith);
        }
        i += 1;
    }
    let table = Table { width: 3, rows };
    proof {
        assert(table@ =~= xor_table(bit_width as nat));
    }
    table
}

/// The residues of a table column, if it has been populated.
pub open spec fn column_view(column: Option<Vec<FieldElement>>) -> Option<Seq<nat>> {
    match column {
        Some(values) => Some(values_view(values@)),
        None => None,
    }
}

/// Component `k` of every row of a table, top to bottom.
pub open spec fn table_column(table: Seq<Seq<nat>>, k: int) -> Seq<nat> {
    Seq::new(table.len(), |r: int| table[r][k])
}

/// What a table column holds; `None` for a column that is not a populated
/// lookup table column.
pub open spec fn content(tables: Seq<Option<Seq<nat>>>, column: Column) -> Option<Seq<nat>> {
    if column.kind == ColumnKind::LookupTable && column.index < tables.len() {
        tables[column.index as int]
    } else {
        None
    }
}

/// Whether row `r` of the named table columns holds the tuple.
pub open spec fn row_matches(
    tables: Seq<Option<Seq<nat>>>,
    columns: Seq<Column>,
    tuple: Seq<nat>,
    r: int,
) -> bool {
    forall|k: int|
        0 <= k < columns.len() ==> {
            &&& content(tables, #[trigger] columns[k]) is Some
            &&& r < content(tables, columns[k])->Some_0.len()
            &&& content(tables, columns[k])->Some_0[r] == tuple[k]
        }
}

/// Whether some row of the named table columns holds the tuple.
pub open spec fn has_row(tables: Seq<Option<Seq<nat>>>, columns: Seq<Column>, tuple: Seq<nat>) -> bool {
    exists|r: int| 0 <= r && #[trigger] row_matches(tables, columns, tuple, r)
}

/// Whether row `r` exists in every one of the named table columns.
pub open spec fn spans(tables: Seq<Option<Seq<nat>>>, columns: Seq<Column>, r: int) -> bool {
    forall|k: int|
        0 <= k < columns.len() ==> {
            &&& content(tables, #[trigger] columns[k]) is Some
            &&& r < content(tables, columns[k])->Some_0.len()
        }
}

/// The tuple that row `r` of the named table columns holds.
pub open spec fn row_tuple(tables: Seq<Option<Seq<nat>>>, columns: Seq<Column>, r: int) -> Seq<
    nat,
> {
    Seq::new(columns.len(), |k: int| content(tables, columns[k])->Some_0[r])
}

/// The keys of an index lie below this prime.
pub const KEY_MODULUS: u64 = 0xffff_fffb;

/// The key of a tuple: its components' low 32 bits, folded into one number.
/// Tuples with the same components have the same key.
pub open spec fn tuple_key(tuple: Seq<nat>) -> u64
    decreases tuple.len(),
{
    if tuple.len() == 0 {
        0
    } else {
        ((tuple_key(tuple.drop_last()) * 31 + tuple.last() % 0x1_0000_0000) % (
        KEY_MODULUS as int)) as u64
    }
}

/// Folds one more component into a key.
fn key_step(key: u64, value: &FieldElement) -> (next: u64)
    requires
        key < KEY_MODULUS,
    ensures
        next == ((key * 31 + value@ % 0x1_0000_0000) % (KEY_MODULUS as int)) as u64,
        next < KEY_MODULUS,
{
    let low: u64 = value.lower_32() as u64;
    (key * 31 + low) % KEY_MODULUS
}

/// The key of a tuple.
pub fn key_of(tuple: &Vec<FieldElement>) -> (key: u64)
    ensures
        key == tuple_key(values_view(tuple@)),
{
    let ghost values = values_view(tuple@);
    let mut key: u64 = 0;
    let mut k: usize = 0;
    assert(values.take(0) =~= Seq::empty());
    while k < tuple.len()
        invariant
            k <= tuple.len(),
            values == values_view(tuple@),
            key == tuple_key(values.take(k as int)),
            key < KEY_MODULUS,
        decreases tuple.len() - k,
    {
        proof {
            assert(values.take(k + 1).drop_last() =~= values.take(k as int));
        }
        key = key_step(key, &tuple[k]);
        k += 1;
    }
    proof {
        assert(values.take(values.len() as int) =~= values);
    }
    key
}

/// An index over the rows of some table columns: for each key, the rows
/// whose tuple has that key.
pub struct RowIndex {
    rows: usize,
    buckets: HashMap<u64, Vec<usize>>,
}

impl RowIndex {
    /// The index covers exactly the rows that all of the columns have,
    /// each of them under the key of its tuple.
    pub closed spec fn wf(&self, tables: Seq<Option<Seq<nat>>>, columns: Seq<Column>) -> bool {
        columns.len() > 0 ==> {
            &&& forall|r: int| 0 <= r ==> (spans(tables, columns, r) <==> r < self.rows)
            &&& forall|r: int|
                0 <= r < self.rows ==> {
                    &&& self.buckets@.contains_key(#[trigger] tuple_key(row_tuple(tables, columns, r)))
                    &&& self.buckets@[tuple_key(row_tuple(tables, columns, r))]@.contains(
                        r as usize,
                    )
                }
            &&& forall|key: u64, i: int|
                self.buckets@.contains_key(key) && 0 <= i < self.buckets@[key]@.len() ==> (
                #[trigger] self.buckets@[key]@[i]) < self.rows
        }
    }
}

/// Whether `column` is a lookup table column with an index below `count`.
pub open spec fn is_table_column(column: Column, count: nat) -> bool {
    column.kind == ColumnKind::LookupTable && column.index < count
}

/// Whether no column occurs twice in the list.
pub open spec fn distinct(columns: Seq<Column>) -> bool {
    forall|i: int, j: int| 0 <= i < j < columns.len() ==> columns[i] != columns[j]
}

/// Whether every column of the list is a lookup table column with an index
/// below `count`.
pub open spec fn all_table_columns(columns: Seq<Column>, count: nat) -> bool {
    forall|k: int| 0 <= k < columns.len() ==> is_table_column(#[trigger] columns[k], count)
}

/// Whether no column of the list has been populated.
pub open spec fn all_vacant(tables: Seq<Option<Seq<nat>>>, columns: Seq<Column>) -> bool {
    forall|k: int| 0 <= k < columns.len() ==> content(tables, #[trigger] columns[k]) is None
}

/// The contents of the lookup table columns, each written at most once.
#[derive(Debug)]
pub struct Tables {
    columns: Vec<Option<Vec<FieldElement>>>,
}

impl View for Tables {
    type V = Seq<Option<Seq<nat>>>;

    closed spec fn view(&self) -> Seq<Option<Seq<nat>>> {
        self.columns@.map_values(|c: Option<Vec<FieldElement>>| column_view(c))
    }
}

impl Tables {
    /// `count` table columns, none of them populated.
    pub fn new(count: usize) -> (tables: Tables)
        ensures
            tables@.len() == count,
            forall|i: int| 0 <= i < count ==> tables@[i] is None,
    {
        let mut columns: Vec<Option<Vec<FieldElement>>> = Vec::new();
        let mut i: usize = 0;
        while i < count
            invariant
                i <= count,
                columns@.len() == i,
                forall|k: int| 0 <= k < i ==> columns@[k] is None,
            decreases count - i,
        {
            columns.push(None);
            i += 1;
        }
        Tables { columns }
    }

    /// Whether row `r` of the named table columns holds the tuple.
    pub fn row_holds(&self, columns: &Vec<Column>, tuple: &Vec<FieldElement>, r: usize) -> (same:
        bool)
        requires
            columns.len() == tuple.len(),
        ensures
            same == row_matches(self@, columns@, values_view(tuple@), r as int),
    {
        let mut k: usize = 0;
        while k < columns.len()
            invariant
                k <= columns.len(),
                columns.len() == tuple.len(),
                forall|p: int|
                    0 <= p < k ==> {
                        &&& content(self@, #[trigger] columns@[p]) is Some
                        &&& r < content(self@, columns@[p])->Some_0.len()
                        &&& content(self@, columns@[p])->Some_0[r as int] == values_view(tuple@)[p]
                    },
            decreases columns.len() - k,
        {
            match self.column(columns[k]) {
                Some(values) => {
                    if r >= values.len() || !values[r].same(&tuple[k]) {
                        assert(content(self@, columns@[k as int]) == Some(values_view(values@)));
                        return false;
                    }
                },
                None => {
                    assert(content(self@, columns@[k as int]) is None);
                    return false;
                },
            }
            k += 1;
        }
        true
    }

    /// Whether some row of the named table columns holds the tuple, found
    /// by looking at one row after the other.
    pub fn has_row(&self, columns: &Vec<Column>, tuple: &Vec<FieldElement>) -> (found: bool)
        requires
            columns.len() == tuple.len(),
        ensures
            found == has_row(self@, columns@, values_view(tuple@)),
    {
        if columns.len() == 0 {
            assert(row_matches(self@, columns@, values_view(tuple@), 0));
            return true;
        }
        let first = columns[0];
        let limit = match self.column(first) {
            Some(values) => values.len(),
            None => 0,
        };
        let mut r: usize = 0;
        while r < limit
            invariant
                r <= limit,
                columns.len() == tuple.len(),
                columns.len() > 0,
                first == columns@[0],
                content(self@, first) is Some ==> limit == content(self@, first)->Some_0.len(),
                content(self@, first) is None ==> limit == 0,
                forall|q: int| 0 <= q < r ==> !row_matches(self@, columns@, values_view(tuple@), q),
            decreases limit - r,
        {
            if self.row_holds(columns, tuple, r) {
                return true;
            }
            r += 1;
        }
        proof {
            assert forall|q: int| 0 <= q implies !row_matches(
                self@,
                columns@,
                values_view(tuple@),
                q,
            ) by {
                if q >= limit {
                    assert(columns@[0] == first);
                }
            }
        }
        false
    }

    /// The number of rows that all of the named table columns have; zero
    /// when one of them is not populated.
    fn common_len(&self, columns: &Vec<Column>) -> (rows: usize)
        requires
            columns.len() > 0,
        ensures
            forall|r: int| 0 <= r ==> (spans(self@, columns@, r) <==> r < rows),
    {
        let mut rows: usize = match self.column(columns[0]) {
            Some(values) => values.len(),
            None => 0,
        };
        let mut k: usize = 1;
        proof {
            assert forall|r: int| 0 <= r implies (spans(self@, columns@.take(1), r) <==> r
                < rows) by {
                assert(columns@.take(1)[0] == columns@[0]);
            }
        }
        while k < columns.len()
            invariant
                1 <= k <= columns.len(),
                forall|r: int| 0 <= r ==> (spans(self@, columns@.take(k as int), r) <==> r < rows),
            decreases columns.len() - k,
        {
            let len = match self.column(columns[k]) {
                Some(values) => values.len(),
                None => 0,
            };
            let ghost before = rows;
            if len < rows {
                rows = len;
            }
            proof {
                let shorter = columns@.take(k as int);
                let longer = columns@.take(k + 1);
                assert forall|r: int| 0 <= r implies (spans(self@, longer, r) <==> r < rows) by {
                    assert(longer[k as int] == columns@[k as int]);
                    if spans(self@, longer, r) {
                        assert forall|j: int| 0 <= j < shorter.len() implies {
                            &&& content(self@, #[trigger] shorter[j]) is Some
                            &&& r < content(self@, shorter[j])->Some_0.len()
                        } by {
                            assert(longer[j] == shorter[j]);
                        }
                        assert(spans(self@, shorter, r));
                    }
                    if r < rows {
                        assert(spans(self@, shorter, r));
                        assert forall|j: int| 0 <= j < longer.len() implies {
                            &&& content(self@, #[trigger] longer[j]) is Some
                            &&& r < content(self@, longer[j])->Some_0.len()
                        } by {
                            if j < k {
                                assert(longer[j] == shorter[j]);
                            }
                        }
                    }
                }
            }
            k += 1;
        }
        proof {
            assert(columns@.take(columns@.len() as int) =~= columns@);
        }
        rows
    }

    /// The key of the tuple that row `r` of the named table columns holds.
    fn row_key(&self, columns: &Vec<Column>, r: usize) -> (key: u64)
        requires
            spans(self@, columns@, r as int),
        ensures
            key == tuple_key(row_tuple(self@, columns@, r as int)),
    {
        let ghost tuple = row_tuple(self@, columns@, r as int);
        let mut key: u64 = 0;
        let mut k: usize = 0;
        assert(tuple.take(0) =~= Seq::empty());
        while k < columns.len()
            invariant
                k <= columns.len(),
                spans(self@, columns@, r as int),
                tuple == row_tuple(self@, columns@, r as int),
                key == tuple_key(tuple.take(k as int)),
                key < KEY_MODULUS,
            decreases columns.len() - k,
        {
            proof {
                assert(tuple.take(k + 1).drop_last() =~= tuple.take(k as int));
                assert(content(self@, columns@[k as int]) is Some);
            }
            match self.column(columns[k]) {
                Some(values) => {
                    key = key_step(key, &values[r]);
                },
                None => {},
            }
            k += 1;
        }
        proof {
            assert(tuple.take(tuple.len() as int) =~= tuple);
        }
        key
    }

    /// Indexes the rows of the named table columns by the key of the tuple
    /// that each of them holds.
    pub fn index(&self, columns: &Vec<Column>) -> (index: RowIndex)
        ensures
            index.wf(self@, columns@),
    {
        let mut buckets: HashMap<u64, Vec<usize>> = HashMap::new();
        if columns.len() == 0 {
            return RowIndex { rows: 0, buckets };
        }
        let rows = self.common_len(columns);
        let mut r: usize = 0;
        while r < rows
            invariant
                r <= rows,
                columns.len() > 0,
                forall|q: int| 0 <= q ==> (spans(self@, columns@, q) <==> q < rows),
                forall|q: int|
                    0 <= q < r ==> {
                        &&& buckets@.contains_key(
                            #[trigger] tuple_key(row_tuple(self@, columns@, q)),
                        )
                        &&& buckets@[tuple_key(row_tuple(self@, columns@, q))]@.contains(
                            q as usize,
                        )
                    },
                forall|key: u64, i: int|
                    buckets@.contains_key(key) && 0 <= i < buckets@[key]@.len() ==> (
                    #[trigger] buckets@[key]@[i]) < rows,
            decreases rows - r,
        {
            let key = self.row_key(columns, r);
            let ghost before = buckets@;
            let mut bucket = match buckets.remove(&key) {
                Some(bucket) => bucket,
                None => Vec::new(),
            };
            let ghost earlier = bucket@;
            bucket.push(r);
            let ghost later = bucket@;
            buckets.insert(key, bucket);
            proof {
                assert(buckets@ =~= before.insert(key, bucket));
                assert(later[earlier.len() as int] == r);
                assert forall|q: int| 0 <= q < r + 1 implies {
                    &&& buckets@.contains_key(#[trigger] tuple_key(row_tuple(self@, columns@, q)))
                    &&& buckets@[tuple_key(row_tuple(self@, columns@, q))]@.contains(q as usize)
                } by {
                    let other = tuple_key(row_tuple(self@, columns@, q));
                    if q < r && other == key {
                        assert(before.contains_key(key));
                        let at = choose|at: int|
                            0 <= at < earlier.len() && earlier[at] == q as usize;
                        assert(later[at] == q as usize);
                    }
                }
                assert forall|other: u64, i: int|
                    buckets@.contains_key(other) && 0 <= i < buckets@[other]@.len() implies (
                #[trigger] buckets@[other]@[i]) < rows by {
                    if other == key {
                        if i < earlier.len() {
                            assert(before.contains_key(key));
                            assert(later[i] == earlier[i]);
                            assert(before[key]@[i] < rows);
                        }
                    } else {
                        assert(before.contains_key(other));
                        assert(before[other]@[i] < rows);
                    }
                }
            }
            r += 1;
        }
        RowIndex { rows, buckets }
    }

    /// Whether some row of the named table columns holds the tuple, found
    /// through an index of these columns: only the rows whose key is the
    /// tuple's are looked at.
    pub fn has_indexed_row(
        &self,
        index: &RowIndex,
        columns: &Vec<Column>,
        tuple: &Vec<FieldElement>,
    ) -> (found: bool)
        requires
            index.wf(self@, columns@),
            columns.len() == tuple.len(),
        ensures
            found == has_row(self@, columns@, values_view(tuple@)),
    {
        if columns.len() == 0 {
            assert(row_matches(self@, columns@, values_view(tuple@), 0));
            return true;
        }
        let key = key_of(tuple);
        let ghost wanted = values_view(tuple@);
        proof {
            assert forall|r: int| 0 <= r && row_matches(self@, columns@, wanted, r) implies r
                < index.rows && tuple_key(row_tuple(self@, columns@, r)) == key by {
                assert(spans(self@, columns@, r));
                assert(row_tuple(self@, columns@, r) =~= wanted);
            }
        }
        match index.buckets.get(&key) {
            None => {
                proof {
                    assert forall|r: int| 0 <= r implies !row_matches(
                        self@,
                        columns@,
                        wanted,
                        r,
                    ) by {
                        if row_matches(self@, columns@, wanted, r) {
                            assert(index.buckets@.contains_key(
                                tuple_key(row_tuple(self@, columns@, r)),
                            ));
                        }
                    }
                }
                false
            },
            Some(bucket) => {
                let mut i: usize = 0;
                while i < bucket.len()
                    invariant
                        i <= bucket.len(),
                        columns.len() == tuple.len(),
                        wanted == values_view(tuple@),
                        forall|j: int|
                            0 <= j < i ==> !row_matches(
                                self@,
                                columns@,
                                wanted,
                                (#[trigger] bucket@[j]) as int,
                            ),
                    decreases bucket.len() - i,
                {
                    if self.row_holds(columns, tuple, bucket[i]) {
                        assert(row_matches(self@, columns@, wanted, bucket@[i as int] as int));
                        return true;
                    }
                    i += 1;
                }
                proof {
                    assert(index.buckets@[key] == *bucket);
                    assert forall|r: int| 0 <= r implies !row_matches(
                        self@,
                        columns@,
                        wanted,
                        r,
                    ) by {
                        if row_matches(self@, columns@, wanted, r) {
                            assert(index.buckets@[tuple_key(row_tuple(self@, columns@, r))]@.contains(
                                r as usize,
                            ));
                            let at = choose|at: int|
                                0 <= at < bucket@.len() && bucket@[at] == r as usize;
                            assert(!row_matches(self@, columns@, wanted, bucket@[at] as int));
                        }
                    }
                }
                false
            },
        }
    }

    /// Loads a table into as many vacant table columns as it is wide:
    /// column `k` of the list receives component `k` of every row. Nothing
    /// is written unless everything can be.
    pub fn populate(&mut self, columns: &Vec<Column>, table: &Table) -> (r: Result<(), Error>)
        requires
            table.wf(),
        ensures
            r == if columns@.len() != table.spec_width() {
                Err::<(), Error>(Error::Configuration(ConfigurationError::TableWidthMismatch))
            } else if !all_table_columns(columns@, old(self)@.len()) {
                Err(Error::Configuration(ConfigurationError::UndeclaredColumn))
            } else if !distinct(columns@) || !all_vacant(old(self)@, columns@) {
                Err(Error::Synthesis(SynthesisError::CellAlreadyAssigned))
            } else {
                Ok(())
            },
            r is Err ==> final(self)@ == old(self)@,
            r is Ok ==> {
                &&& final(self)@.len() == old(self)@.len()
                &&& forall|k: int|
                    0 <= k < columns@.len() ==> content(final(self)@, #[trigger] columns@[k])
                        == Some(table_column(table@, k))
                &&& forall|c: Column|
                    !columns@.contains(c) ==> content(final(self)@, c) == content(old(self)@, c)
            },
    {
        if columns.len() != table.width() {
            return Err(Error::Configuration(ConfigurationError::TableWidthMismatch));
        }
        let mut k: usize = 0;
        while k < columns.len()
            invariant
                k <= columns.len(),
                *self == *old(self),
                columns@.len() == table.spec_width(),
                forall|p: int| 0 <= p < k ==> is_table_column(#[trigger] columns@[p], self@.len()),
            decreases columns.len() - k,
        {
            let is_table = match columns[k].kind {
                ColumnKind::LookupTable => true,
                _ => false,
            };
            if !is_table || columns[k].index >= self.columns.len() {
                assert(!is_table_column(columns@[k as int], self@.len()));
                return Err(Error::Configuration(ConfigurationError::UndeclaredColumn));
            }
            k += 1;
        }
        k = 0;
        while k < columns.len()
            invariant
                k <= columns.len(),
                *self == *old(self),
                columns@.len() == table.spec_width(),
                all_table_columns(columns@, self@.len()),
                forall|p: int| 0 <= p < k ==> content(self@, #[trigger] columns@[p]) is None,
                forall|i: int, j: int| 0 <= i < j < k ==> columns@[i] != columns@[j],
            decreases columns.len() - k,
        {
            if self.columns[columns[k].index].is_some() {
                assert(is_table_column(columns@[k as int], self@.len()));
                assert(content(self@, columns@[k as int]) is Some);
                assert(!all_vacant(self@, columns@));
                return Err(Error::Synthesis(SynthesisError::CellAlreadyAssigned));
            }
            let mut j: usize = 0;
            while j < k
                invariant
                    j <= k < columns.len(),
                    *self == *old(self),
                    columns@.len() == table.spec_width(),
                    all_table_columns(columns@, self@.len()),
                    forall|i: int| 0 <= i < j ==> columns@[i] != columns@[k as int],
                decreases k - j,
            {
                if columns[j] == columns[k] {
                    assert(columns@[j as int] == columns@[k as int]);
                    assert(!distinct(columns@));
                    return Err(Error::Synthesis(SynthesisError::CellAlreadyAssigned));
                }
                j += 1;
            }
            k += 1;
        }
        k = 0;
        while k < columns.len()
            invariant
                k <= columns.len(),
                table.wf(),
                columns@.len() == table.spec_width(),
                self@.len() == old(self)@.len(),
                all_table_columns(columns@, self@.len()),
                distinct(columns@),
                forall|p: int|
                    0 <= p < k ==> content(self@, #[trigger] columns@[p]) == Some(
                        table_column(table@, p),
                    ),
                forall|c: Column|
                    !columns@.take(k as int).contains(c) ==> content(self@, c) == content(
                        old(self)@,
                        c,
                    ),
            decreases columns.len() - k,
        {
            let mut values: Vec<FieldElement> = Vec::new();
            let mut r: usize = 0;
            while r < table.len()
                invariant
                    r <= table@.len(),
                    table.wf(),
                    k < table.spec_width(),
                    values@.len() == r,
                    forall|q: int| 0 <= q < r ==> (#[trigger] values@[q])@ == table@[q][k as int],
                decreases table@.len() - r,
            {
                values.push(table.get(r, k));
                r += 1;
            }
            proof {
                assert(values_view(values@) =~= table_column(table@, k as int));
            }
            let ghost before = self@;
            let index = columns[k].index;
            self.columns[index] = Some(values);
            proof {
                assert(self@ =~= before.update(index as int, Some(table_column(table@, k as int))));
                assert forall|p: int| 0 <= p < k + 1 implies content(self@, #[trigger] columns@[p])
                    == Some(table_column(table@, p)) by {
                    if p < k {
                        assert(columns@[p] != columns@[k as int]);
                        assert(content(before, columns@[p]) == Some(table_column(table@, p)));
                    }
                }
                assert forall|c: Column| !columns@.take(k + 1).contains(c) implies content(self@, c)
                    == content(old(self)@, c) by {
                    assert(columns@.take(k + 1)[k as int] == columns@[k as int]);
                    assert(c != columns@[k as int]);
                    assert forall|p: int| 0 <= p < k implies columns@.take(k as int)[p] != c by {
                        assert(columns@.take(k + 1)[p] == columns@[p]);
                    }
                }
            }
            k += 1;
        }
        proof {
            assert(columns@.take(columns@.len() as int) =~= columns@);
        }
        Ok(())
    }

    /// What a table column holds, if it is populated.
    pub fn column(&self, column: Column) -> (r: Option<&Vec<FieldElement>>)
        ensures
            content(self@, column) == match r {
                Some(values) => Some(values_view(values@)),
                None => None,
            },
    {
        match column.kind {
            ColumnKind::LookupTable => {
                if column.index < self.columns.len() {
                    self.columns[column.index].as_ref()
                } else {
                    None
                }
            },
            _ => None,
        }
    }
}

} // verus!
