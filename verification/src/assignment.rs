//! The assignment matrix: the sparse grid of witness values, the public
//! inputs, and the rows on which each selector is switched on.
use crate::column::{Cell, ColumnKind};
use crate::field::FieldElement;
use vstd::prelude::*;

verus! {

/// The mathematical content of an [`Assignment`].
pub struct Matrix {
    /// Every cell written so far, with its value if one was supplied.
    pub cells: Map<Cell, Option<nat>>,
    /// The public inputs, one sequence per instance column.
    pub instance: Seq<Seq<nat>>,
    /// The pairs (selector index, row) that are switched on.
    pub enabled: Set<(usize, usize)>,
    /// The number of rows in use.
    pub rows: usize,
}

impl Matrix {
    /// The value that a cell carries, if it carries one. Instance cells read
    /// from the public inputs, advice and fixed cells from what was written.
    pub open spec fn value(self, cell: Cell) -> Option<nat> {
        if cell.column.kind == ColumnKind::Instance {
            if cell.column.index < self.instance.len() && cell.row
                < self.instance[cell.column.index as int].len() {
                Some(self.instance[cell.column.index as int][cell.row as int])
            } else {
                None
            }
        } else if self.cells.contains_key(cell) {
            self.cells[cell]
        } else {
            None
        }
    }

    /// Written cells lie on advice or fixed columns within the used rows, and
    /// so does every switched-on selector.
    pub open spec fn wf(self) -> bool {
        &&& forall|c: Cell| #[trigger]
            self.cells.contains_key(c) ==> c.column.is_assignable() && c.row < self.rows
        &&& forall|s: usize, r: usize| #[trigger] self.enabled.contains((s, r)) ==> r < self.rows
    }

    /// `other` holds everything that `self` holds, and possibly more rows.
    pub open spec fn extended_by(self, other: Matrix) -> bool {
        &&& self.cells.submap_of(other.cells)
        &&& self.instance == other.instance
        &&& self.enabled.subset_of(other.enabled)
        &&& self.rows <= other.rows
        &&& forall|c: Cell| #[trigger]
            other.cells.contains_key(c) && !self.cells.contains_key(c) ==> c.row >= self.rows
        &&& forall|s: usize, r: usize| #[trigger]
            other.enabled.contains((s, r)) && !self.enabled.contains((s, r)) ==> r >= self.rows
    }
}

/// The view of an optional field element.
pub open spec fn value_view(value: Option<FieldElement>) -> Option<nat> {
    match value {
        Some(v) => Some(v@),
        None => None,
    }
}

/// One written cell.
#[derive(Clone, Copy, Debug, PartialEq, Eq)]
pub struct Assigned {
    pub cell: Cell,
    pub value: Option<FieldElement>,
}

/// One switched-on selector row.
#[derive(Clone, Copy, Debug, PartialEq, Eq, Structural)]
pub struct Activation {
    pub selector: usize,
    pub row: usize,
}

/// The map that a list of written cells stands for; a later entry wins.
pub open spec fn cells_map(entries: Seq<Assigned>) -> Map<Cell, Option<nat>>
    decreases entries.len(),
{
    if entries.len() == 0 {
        Map::empty()
    } else {
        cells_map(entries.drop_last()).insert(entries.last().cell, value_view(entries.last().value))
    }
}

/// The set that a list of activations stands for.
pub open spec fn activation_set(entries: Seq<Activation>) -> Set<(usize, usize)>
    decreases entries.len(),
{
    if entries.len() == 0 {
        Set::empty()
    } else {
        activation_set(entries.drop_last()).insert((entries.last().selector, entries.last().row))
    }
}

/// The public inputs as numbers.
pub open spec fn instance_view(instance: Seq<Vec<FieldElement>>) -> Seq<Seq<nat>> {
    Seq::new(instance.len(), |i: int| Seq::new(instance[i]@.len(), |j: int| instance[i]@[j]@))
}

/// One more entry at the end of the list is one more insertion into the map.
pub proof fn lemma_cells_map_push(entries: Seq<Assigned>, entry: Assigned)
    ensures
        cells_map(entries.push(entry)) == cells_map(entries).insert(
            entry.cell,
            value_view(entry.value),
        ),
{
    assert(entries.push(entry).drop_last() =~= entries);
}

/// One more entry at the end of the list is one more element of the set.
pub proof fn lemma_activation_set_push(entries: Seq<Activation>, entry: Activation)
    ensures
        activation_set(entries.push(entry)) == activation_set(entries).insert(
            (entry.selector, entry.row),
        ),
{
    assert(entries.push(entry).drop_last() =~= entries);
}

/// The map of a concatenation: the second list's entries win.
pub proof fn lemma_cells_map_concat(first: Seq<Assigned>, second: Seq<Assigned>)
    ensures
        cells_map(first + second) == cells_map(first).union_prefer_right(cells_map(second)),
    decreases second.len(),
{
    if second.len() == 0 {
        assert(first + second =~= first);
        assert(cells_map(first).union_prefer_right(cells_map(second)) =~= cells_map(first));
    } else {
        lemma_cells_map_concat(first, second.drop_last());
        assert((first + second).drop_last() =~= first + second.drop_last());
        assert(cells_map(first + second) =~= cells_map(first).union_prefer_right(
            cells_map(second),
        ));
    }
}

/// The set of a concatenation is the union of the two sets.
pub proof fn lemma_activation_set_concat(first: Seq<Activation>, second: Seq<Activation>)
    ensures
        activation_set(first + second) == activation_set(first).union(activation_set(second)),
    decreases second.len(),
{
    if second.len() == 0 {
        assert(first + second =~= first);
        assert(activation_set(first).union(activation_set(second)) =~= activation_set(first));
    } else {
        lemma_activation_set_concat(first, second.drop_last());
        assert((first + second).drop_last() =~= first + second.drop_last());
        assert(activation_set(first + second) =~= activation_set(first).union(
            activation_set(second),
        ));
    }
}

/// Whether a list of written cells holds the cell.
pub fn holds_cell(entries: &Vec<Assigned>, cell: Cell) -> (r: bool)
    ensures
        r == cells_map(entries@).contains_key(cell),
{
    let mut i: usize = entries.len();
    assert(entries@.take(i as int) =~= entries@);
    while i > 0
        invariant
            i <= entries.len(),
            cells_map(entries@).contains_key(cell) == cells_map(entries@.take(i as int)).contains_key(
                cell,
            ),
        decreases i,
    {
        proof {
            assert(entries@.take(i as int).drop_last() =~= entries@.take(i - 1));
        }
        i -= 1;
        if entries[i].cell == cell {
            return true;
        }
    }
    false
}

/// The matrix that synthesis fills and the checker reads.
pub struct Assignment {
    cells: Vec<Assigned>,
    instance: Vec<Vec<FieldElement>>,
    enabled: Vec<Activation>,
    rows: usize,
}

impl View for Assignment {
    type V = Matrix;

    closed spec fn view(&self) -> Matrix {
        Matrix {
            cells: cells_map(self.cells@),
            instance: instance_view(self.instance@),
            enabled: activation_set(self.enabled@),
            rows: self.rows,
        }
    }
}

impl Assignment {
    /// An empty matrix over the given public inputs.
    pub fn new(instance: Vec<Vec<FieldElement>>) -> (a: Assignment)
        ensures
            a@.cells == Map::<Cell, Option<nat>>::empty(),
            a@.instance == instance_view(instance@),
            a@.enabled == Set::<(usize, usize)>::empty(),
            a@.rows == 0,
            a@.wf(),
    {
        Assignment { cells: Vec::new(), instance, enabled: Vec::new(), rows: 0 }
    }

    /// The number of rows in use.
    pub fn rows(&self) -> (r: usize)
        ensures
            r == self@.rows,
    {
        self.rows
    }

    /// The written cells, in the order in which they were written.
    pub fn cells(&self) -> (r: &Vec<Assigned>)
        ensures
            cells_map(r@) == self@.cells,
    {
        &self.cells
    }

    /// The switched-on selector rows, in the order in which they were
    /// switched on.
    pub fn activations(&self) -> (r: &Vec<Activation>)
        ensures
            activation_set(r@) == self@.enabled,
    {
        &self.enabled
    }

    /// The public inputs, one vector per instance column.
    pub fn instance(&self) -> (r: &Vec<Vec<FieldElement>>)
        ensures
            instance_view(r@) == self@.instance,
    {
        &self.instance
    }

    /// Whether an advice or fixed cell has been written.
    pub fn is_claimed(&self, cell: Cell) -> (r: bool)
        ensures
            r == self@.cells.contains_key(cell),
    {
        holds_cell(&self.cells, cell)
    }

    /// The value of a cell, if it carries one.
    pub fn value(&self, cell: Cell) -> (r: Option<FieldElement>)
        ensures
            value_view(r) == self@.value(cell),
    {
        match cell.column.kind {
            ColumnKind::Instance => {
                if cell.column.index < self.instance.len() {
                    let column = &self.instance[cell.column.index];
                    if cell.row < column.len() {
                        return Some(column[cell.row]);
                    }
                }
                None
            },
            _ => {
                let mut i: usize = self.cells.len();
                assert(self.cells@.take(i as int) =~= self.cells@);
                while i > 0
                    invariant
                        i <= self.cells.len(),
                        cell.column.kind != ColumnKind::Instance,
                        self@.value(cell) == (Matrix {
                            cells: cells_map(self.cells@.take(i as int)),
                            ..self@
                        }).value(cell),
                    decreases i,
                {
                    proof {
                        assert(self.cells@.take(i as int).drop_last() =~= self.cells@.take(i - 1));
                    }
                    i -= 1;
                    if self.cells[i].cell == cell {
                        return self.cells[i].value;
                    }
                }
                None
            },
        }
    }

    /// Whether a selector is switched on at a row.
    pub fn is_enabled(&self, selector: usize, row: usize) -> (r: bool)
        ensures
            r == self@.enabled.contains((selector, row)),
    {
        let mut i: usize = self.enabled.len();
        assert(self.enabled@.take(i as int) =~= self.enabled@);
        while i > 0
            invariant
                i <= self.enabled.len(),
                self@.enabled.contains((selector, row)) == activation_set(
                    self.enabled@.take(i as int),
                ).contains((selector, row)),
            decreases i,
        {
            proof {
                assert(self.enabled@.take(i as int).drop_last() =~= self.enabled@.take(i - 1));
            }
            i -= 1;
            if self.enabled[i].selector == selector && self.enabled[i].row == row {
                return true;
            }
        }
        false
    }

    /// The number of public inputs in an instance column; zero for a column
    /// that was given none.
    pub fn instance_len(&self, index: usize) -> (r: usize)
        ensures
            index < self@.instance.len() ==> r == self@.instance[index as int].len(),
            index >= self@.instance.len() ==> r == 0,
    {
        if index < self.instance.len() {
            self.instance[index].len()
        } else {
            0
        }
    }

    /// Takes over the cells and activations that a region has staged, and
    /// grows the used row range.
    pub(crate) fn absorb(
        &mut self,
        cells: &mut Vec<Assigned>,
        enabled: &mut Vec<Activation>,
        rows: usize,
    )
        ensures
            final(self)@ == (Matrix {
                cells: old(self)@.cells.union_prefer_right(cells_map(old(cells)@)),
                enabled: old(self)@.enabled.union(activation_set(old(enabled)@)),
                rows,
                ..old(self)@
            }),
    {
        proof {
            lemma_cells_map_concat(self.cells@, cells@);
            lemma_activation_set_concat(self.enabled@, enabled@);
        }
        self.cells.append(cells);
        self.enabled.append(enabled);
        self.rows = rows;
    }

}

} // verus!
