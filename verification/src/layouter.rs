//! Synthesis: regions stage their cells on fresh rows, and the layouter
//! commits each region as a whole.
use crate::assignment::{
    activation_set, cells_map, holds_cell, instance_view, lemma_activation_set_push,
    lemma_cells_map_push, value_view, Activation, Assigned, Assignment, Matrix,
};
use crate::checker::{reports, verify, Violation};
use crate::column::{Cell, Column, ColumnKind, Selector};
use crate::constraint_system::{ConstraintSystem, Shape};
use crate::equality::EqualityConstraint;
use crate::error::{ConfigurationError, Error, SynthesisError};
use crate::field::FieldElement;
use crate::satisfaction::satisfied;
use crate::table::{
    all_table_columns, all_vacant, content, distinct, table_column, Table, Tables,
};
use vstd::prelude::*;

verus! {

/// The mathematical content of a [`Region`]: what it has staged on the rows
/// from `base` on.
pub struct Staged {
    pub name: Seq<char>,
    /// The absolute row of local row 0.
    pub base: usize,
    /// The number of local rows in use.
    pub height: usize,
    pub cells: Map<Cell, Option<nat>>,
    pub enabled: Set<(usize, usize)>,
    pub equalities: Seq<EqualityConstraint>,
}

/// Whether both cells of every constraint lie on equality-enabled columns.
pub open spec fn equalities_allowed(equalities: Seq<EqualityConstraint>, shape: Shape) -> bool {
    forall|i: int|
        0 <= i < equalities.len() ==> {
            &&& shape.equality_enabled((#[trigger] equalities[i]).left.column)
            &&& shape.equality_enabled(equalities[i].right.column)
        }
}

impl Staged {
    /// The staged cells lie on declared advice and fixed columns, everything
    /// staged lies within the region's rows, and every constraint is
    /// between equality-enabled columns.
    pub open spec fn wf(self, shape: Shape) -> bool {
        &&& self.base + self.height <= usize::MAX
        &&& forall|c: Cell| #[trigger]
            self.cells.contains_key(c) ==> {
                &&& c.column.is_assignable()
                &&& shape.declares(c.column)
                &&& self.base <= c.row < self.base + self.height
            }
        &&& forall|s: usize, r: usize| #[trigger]
            self.enabled.contains((s, r)) ==> {
                &&& s < shape.selectors.len()
                &&& self.base <= r < self.base + self.height
            }
        &&& equalities_allowed(self.equalities, shape)
    }

    /// The cell of `column` at local row `local_row`.
    pub open spec fn cell_at(self, column: Column, local_row: usize) -> Cell {
        Cell { column, row: (self.base + local_row) as usize }
    }

    /// The height after local row `local_row` has been used.
    pub open spec fn height_with(self, local_row: usize) -> usize {
        if local_row < self.height {
            self.height
        } else {
            (local_row + 1) as usize
        }
    }
}

/// The mathematical content of a [`Layouter`].
pub struct Synthesis {
    pub shape: Shape,
    pub matrix: Matrix,
    pub equalities: Seq<EqualityConstraint>,
    pub tables: Seq<Option<Seq<nat>>>,
}

impl Synthesis {
    /// The shape is well formed and frozen, the matrix is well formed and
    /// speaks of declared columns and selectors only, every table column
    /// has its slot, and every constraint is between equality-enabled
    /// columns.
    pub open spec fn wf(self) -> bool {
        &&& self.shape.wf()
        &&& self.shape.frozen
        &&& self.matrix.wf()
        &&& forall|c: Cell| #[trigger]
            self.matrix.cells.contains_key(c) ==> self.shape.declares(c.column)
        &&& forall|s: usize, r: usize| #[trigger]
            self.matrix.enabled.contains((s, r)) ==> s < self.shape.selectors.len()
        &&& self.tables.len() == self.shape.tables
        &&& equalities_allowed(self.equalities, self.shape)
    }

    /// A region just opened under `name`: nothing staged, based on the
    /// first unused row.
    pub open spec fn fresh(self, name: Seq<char>) -> Staged {
        Staged {
            name,
            base: self.matrix.rows,
            height: 0,
            cells: Map::empty(),
            enabled: Set::empty(),
            equalities: Seq::empty(),
        }
    }

    /// The state after a region has been committed: its cells and
    /// activations join the matrix, its constraints join the list, and the
    /// used rows grow by the region's height.
    pub open spec fn commit(self, staged: Staged) -> Synthesis {
        Synthesis {
            matrix: Matrix {
                cells: self.matrix.cells.union_prefer_right(staged.cells),
                enabled: self.matrix.enabled.union(staged.enabled),
                rows: (staged.base + staged.height) as usize,
                ..self.matrix
            },
            equalities: self.equalities + staged.equalities,
            ..self
        }
    }
}

/// Committing a region keeps the state well formed and extends the matrix:
/// every cell written before keeps its value, and everything new lies on
/// rows that were unused before.
pub proof fn lemma_commit_extends(s: Synthesis, staged: Staged)
    requires
        s.wf(),
        staged.wf(s.shape),
        staged.base == s.matrix.rows,
    ensures
        s.commit(staged).wf(),
        s.matrix.extended_by(s.commit(staged).matrix),
{
    let after = s.commit(staged);
    assert forall|i: int| 0 <= i < after.equalities.len() implies {
        &&& after.shape.equality_enabled((#[trigger] after.equalities[i]).left.column)
        &&& after.shape.equality_enabled(after.equalities[i].right.column)
    } by {
        if i < s.equalities.len() {
            assert(after.equalities[i] == s.equalities[i]);
        } else {
            assert(after.equalities[i] == staged.equalities[i - s.equalities.len()]);
        }
    }
    assert forall|c: Cell| #[trigger] after.matrix.cells.contains_key(c) implies {
        &&& c.column.is_assignable()
        &&& c.row < after.matrix.rows
        &&& after.shape.declares(c.column)
    } by {
        if !staged.cells.contains_key(c) {
            assert(s.matrix.cells.contains_key(c));
        }
    }
    assert forall|x: usize, r: usize| #[trigger]
        after.matrix.enabled.contains((x, r)) implies r < after.matrix.rows && x
        < after.shape.selectors.len() by {
        if !staged.enabled.contains((x, r)) {
            assert(s.matrix.enabled.contains((x, r)));
        }
    }
    assert forall|c: Cell| #[trigger] s.matrix.cells.contains_key(c) implies !staged.cells.contains_key(
        c,
    ) by {
        assert(c.row < s.matrix.rows);
    }
    assert(s.matrix.cells.submap_of(after.matrix.cells));
}

/// A named block of rows under construction. Its local row 0 is the first
/// row that no earlier region has used.
#[derive(Debug)]
pub struct Region {
    name: String,
    base: usize,
    height: usize,
    cells: Vec<Assigned>,
    enabled: Vec<Activation>,
    equalities: Vec<EqualityConstraint>,
}

impl View for Region {
    type V = Staged;

    closed spec fn view(&self) -> Staged {
        Staged {
            name: self.name@,
            base: self.base,
            height: self.height,
            cells: cells_map(self.cells@),
            enabled: activation_set(self.enabled@),
            equalities: self.equalities@,
        }
    }
}

/// Lays regions out one below the other and holds everything that the
/// checker reads.
pub struct Layouter {
    cs: ConstraintSystem,
    matrix: Assignment,
    equalities: Vec<EqualityConstraint>,
    tables: Tables,
}

impl View for Layouter {
    type V = Synthesis;

    closed spec fn view(&self) -> Synthesis {
        Synthesis {
            shape: self.cs@,
            matrix: self.matrix@,
            equalities: self.equalities@,
            tables: self.tables@,
        }
    }
}

impl Layouter {
    /// Starts synthesis over a constraint system, which is frozen by this,
    /// and the public inputs, one vector per instance column.
    pub fn new(cs: ConstraintSystem, instance: Vec<Vec<FieldElement>>) -> (layouter: Layouter)
        requires
            cs@.wf(),
        ensures
            layouter@.wf(),
            layouter@.shape == (Shape { frozen: true, ..cs@ }),
            layouter@.matrix.cells == Map::<Cell, Option<nat>>::empty(),
            layouter@.matrix.enabled == Set::<(usize, usize)>::empty(),
            layouter@.matrix.instance == instance_view(instance@),
            layouter@.matrix.rows == 0,
            layouter@.equalities == Seq::<EqualityConstraint>::empty(),
            layouter@.tables.len() == cs@.tables,
            forall|i: int| 0 <= i < cs@.tables ==> layouter@.tables[i] is None,
    {
        let mut cs = cs;
        cs.freeze();
        let count = cs.table_count();
        let layouter = Layouter {
            cs,
            matrix: Assignment::new(instance),
            equalities: Vec::new(),
            tables: Tables::new(count),
        };
        layouter
    }

    /// The frozen constraint system.
    pub fn constraint_system(&self) -> (cs: &ConstraintSystem)
        ensures
            cs@ == self@.shape,
    {
        &self.cs
    }

    /// The matrix as filled so far.
    pub fn assignment(&self) -> (matrix: &Assignment)
        ensures
            matrix@ == self@.matrix,
    {
        &self.matrix
    }

    /// The equality constraints recorded so far.
    pub fn equalities(&self) -> (equalities: &Vec<EqualityConstraint>)
        ensures
            equalities@ == self@.equalities,
    {
        &self.equalities
    }

    /// The lookup table columns as populated so far.
    pub fn tables(&self) -> (tables: &Tables)
        ensures
            tables@ == self@.tables,
    {
        &self.tables
    }

    /// The number of rows in use: the absolute row at which the next region
    /// starts.
    pub fn rows(&self) -> (rows: usize)
        ensures
            rows == self@.matrix.rows,
    {
        self.matrix.rows()
    }

    /// Checks everything laid out so far against the constraint system.
    pub fn verify(&self) -> (r: Result<(), Vec<Violation>>)
        ensures
            reports(r, self@.shape, self@.matrix, self@.equalities, self@.tables),
            r is Ok <==> satisfied(self@.shape, self@.matrix, self@.equalities, self@.tables),
    {
        verify(&self.cs, &self.matrix, &self.equalities, &self.tables)
    }

    /// Opens a fresh, empty region on the first unused row.
    pub fn open_region(&self, name: &str) -> (region: Region)
        requires
            self@.wf(),
        ensures
            region@ == self@.fresh(name@),
            region@.wf(self@.shape),
    {
        Region {
            name: name.to_owned(),
            base: self.matrix.rows(),
            height: 0,
            cells: Vec::new(),
            enabled: Vec::new(),
            equalities: Vec::new(),
        }
    }

    /// Constrains a cell to equal the public input at `row` of an instance
    /// column.
    pub fn constrain_instance(&mut self, cell: Cell, instance: Column, row: usize) -> (r: Result<
        (),
        Error,
    >)
        requires
            old(self)@.wf(),
        ensures
            r == if instance.kind != ColumnKind::Instance || !old(self)@.shape.declares(instance) {
                Err::<(), Error>(Error::Configuration(ConfigurationError::UndeclaredColumn))
            } else if !old(self)@.shape.equality_enabled(instance)
                || !old(self)@.shape.equality_enabled(cell.column) {
                Err(Error::Configuration(ConfigurationError::EqualityNotEnabled))
            } else if old(self)@.matrix.value(Cell { column: instance, row }) is None {
                Err(Error::Synthesis(SynthesisError::InstanceOutOfBounds))
            } else {
                Ok(())
            },
            r is Err ==> final(self)@ == old(self)@,
            r is Ok ==> final(self)@ == (Synthesis {
                equalities: old(self)@.equalities.push(
                    EqualityConstraint { left: cell, right: Cell { column: instance, row } },
                ),
                ..old(self)@
            }),
            final(self)@.wf(),
    {
        let is_instance = match instance.kind {
            ColumnKind::Instance => true,
            _ => false,
        };
        if !is_instance || !self.cs.declares(instance) {
            return Err(Error::Configuration(ConfigurationError::UndeclaredColumn));
        }
        if !self.cs.equality_enabled(instance) || !self.cs.equality_enabled(cell.column) {
            return Err(Error::Configuration(ConfigurationError::EqualityNotEnabled));
        }
        let source = Cell { column: instance, row };
        if self.matrix.value(source).is_none() {
            return Err(Error::Synthesis(SynthesisError::InstanceOutOfBounds));
        }
        self.equalities.push(EqualityConstraint { left: cell, right: source });
        Ok(())
    }

    /// Loads a table into as many vacant lookup table columns as it is
    /// wide: column `k` of the list receives component `k` of every row.
    pub fn assign_table(&mut self, columns: &Vec<Column>, table: &Table) -> (r: Result<(), Error>)
        requires
            old(self)@.wf(),
            table.wf(),
        ensures
            r == if columns@.len() != table.spec_width() {
                Err::<(), Error>(Error::Configuration(ConfigurationError::TableWidthMismatch))
            } else if !all_table_columns(columns@, old(self)@.shape.tables) {
                Err(Error::Configuration(ConfigurationError::UndeclaredColumn))
            } else if !distinct(columns@) || !all_vacant(old(self)@.tables, columns@) {
                Err(Error::Synthesis(SynthesisError::CellAlreadyAssigned))
            } else {
                Ok(())
            },
            r is Err ==> final(self)@ == old(self)@,
            r is Ok ==> {
                &&& final(self)@ == (Synthesis { tables: final(self)@.tables, ..old(self)@ })
                &&& forall|k: int|
                    0 <= k < columns@.len() ==> content(final(self)@.tables, #[trigger] columns@[k])
                        == Some(table_column(table@, k))
                &&& forall|c: Column|
                    !columns@.contains(c) ==> content(final(self)@.tables, c) == content(
                        old(self)@.tables,
                        c,
                    )
            },
            final(self)@.wf(),
    {
        self.tables.populate(columns, table)
    }

    /// Runs `body` on a fresh region and commits what it staged. The region
    /// is closed on every path: when `body` fails, nothing of it reaches
    /// the matrix, and the error is handed on.
    pub fn with_region<T, B>(&mut self, name: &str, body: B) -> (r: Result<T, Error>) where
        B: FnOnce(&Layouter, Region) -> Result<(Region, T), Error>,

        requires
            old(self)@.wf(),
            forall|region: Region|
                region@.wf(old(self)@.shape) && region@.base == old(self)@.matrix.rows
                    ==> call_requires(body, (&*old(self), region)),
            forall|region: Region, staged: Region, t: T|
                region@.wf(old(self)@.shape) && region@.base == old(self)@.matrix.rows
                    && call_ensures(body, (&*old(self), region), Ok::<(Region, T), Error>((staged, t)))
                    ==> staged@.wf(old(self)@.shape) && staged@.base == old(self)@.matrix.rows,
        ensures
            final(self)@.wf(),
            r is Ok ==> exists|opened: Region, staged: Region|
                {
                    &&& #[trigger] ran(
                        body,
                        *old(self),
                        name@,
                        opened,
                        Ok::<(Region, T), Error>((staged, r->Ok_0)),
                    )
                    &&& final(self)@ == old(self)@.commit(staged@)
                },
            r is Err ==> final(self)@ == old(self)@,
            r is Err ==> exists|opened: Region| #[trigger]
                ran(body, *old(self), name@, opened, Err::<(Region, T), Error>(r->Err_0)),
    {
        let opened = self.open_region(name);
        let ghost witness = opened;
        let ghost run = body;
        let out = body(&*self, opened);
        let r = match out {
            Ok((staged, t)) => {
                self.close_region(staged);
                Ok(t)
            },
            Err(e) => Err(e),
        };
        proof {
            assert(ran(run, *old(self), name@, witness, out));
            if r is Ok {
                assert(out == Ok::<(Region, T), Error>((out->Ok_0.0, r->Ok_0)));
                assert(self@ == old(self)@.commit(out->Ok_0.0@));
            } else {
                assert(out == Err::<(Region, T), Error>(r->Err_0));
            }
        }
        r
    }

    /// Commits a region that was opened on this layouter's current state:
    /// everything it staged becomes part of the matrix, and the next region
    /// starts below it.
    pub fn close_region(&mut self, region: Region)
        requires
            old(self)@.wf(),
            region@.wf(old(self)@.shape),
            region@.base == old(self)@.matrix.rows,
        ensures
            final(self)@ == old(self)@.commit(region@),
            final(self)@.wf(),
            old(self)@.matrix.extended_by(final(self)@.matrix),
    {
        let ghost staged = region@;
        let mut region = region;
        let rows = region.base + region.height;
        self.matrix.absorb(&mut region.cells, &mut region.enabled, rows);
        self.equalities.append(&mut region.equalities);
        proof {
            lemma_commit_extends(old(self)@, staged);
        }
    }
}

impl Region {
    /// The name that the region was opened under.
    pub fn name(&self) -> (name: &String)
        ensures
            name@ == self@.name,
    {
        &self.name
    }

    /// The absolute row of local row 0.
    pub fn base(&self) -> (base: usize)
        ensures
            base == self@.base,
    {
        self.base
    }

    /// The number of local rows in use.
    pub fn height(&self) -> (height: usize)
        ensures
            height == self@.height,
    {
        self.height
    }

    /// Makes sure that local row `local_row` counts as used.
    fn cover(&mut self, local_row: usize)
        requires
            old(self)@.base + local_row < usize::MAX,
        ensures
            final(self)@ == (Staged { height: old(self)@.height_with(local_row), ..old(self)@ }),
    {
        if local_row >= self.height {
            self.height = local_row + 1;
        }
    }

    /// Stages a value, or the lack of one, for a cell of a declared column
    /// of the given kind.
    fn stage(
        &mut self,
        ctx: &Layouter,
        kind: ColumnKind,
        column: Column,
        local_row: usize,
        value: Option<FieldElement>,
    ) -> (r: Result<Cell, Error>)
        requires
            ctx@.wf(),
            old(self)@.wf(ctx@.shape),
            old(self)@.base + local_row < usize::MAX,
            kind == ColumnKind::Advice || kind == ColumnKind::Fixed,
        ensures
            r == if column.kind != kind || !ctx@.shape.declares(column) {
                Err::<Cell, Error>(Error::Configuration(ConfigurationError::UndeclaredColumn))
            } else if old(self)@.cells.contains_key(old(self)@.cell_at(column, local_row)) {
                Err(Error::Synthesis(SynthesisError::CellAlreadyAssigned))
            } else {
                Ok(old(self)@.cell_at(column, local_row))
            },
            r is Err ==> final(self)@ == old(self)@,
            r is Ok ==> final(self)@ == (Staged {
                cells: old(self)@.cells.insert(
                    old(self)@.cell_at(column, local_row),
                    value_view(value),
                ),
                height: old(self)@.height_with(local_row),
                ..old(self)@
            }),
            final(self)@.wf(ctx@.shape),
    {
        if column.kind != kind || !ctx.cs.declares(column) {
            return Err(Error::Configuration(ConfigurationError::UndeclaredColumn));
        }
        let cell = Cell { column, row: self.base + local_row };
        if holds_cell(&self.cells, cell) {
            return Err(Error::Synthesis(SynthesisError::CellAlreadyAssigned));
        }
        proof {
            lemma_cells_map_push(self.cells@, Assigned { cell, value });
        }
        self.cells.push(Assigned { cell, value });
        self.cover(local_row);
        Ok(cell)
    }

    /// Assigns a witness value, or stages the cell without one, in an
    /// advice column at a local row.
    pub fn assign_advice(
        &mut self,
        ctx: &Layouter,
        column: Column,
        local_row: usize,
        value: Option<FieldElement>,
    ) -> (r: Result<Cell, Error>)
        requires
            ctx@.wf(),
            old(self)@.wf(ctx@.shape),
            old(self)@.base + local_row < usize::MAX,
        ensures
            r == if column.kind != ColumnKind::Advice || !ctx@.shape.declares(column) {
                Err::<Cell, Error>(Error::Configuration(ConfigurationError::UndeclaredColumn))
            } else if old(self)@.cells.contains_key(old(self)@.cell_at(column, local_row)) {
                Err(Error::Synthesis(SynthesisError::CellAlreadyAssigned))
            } else {
                Ok(old(self)@.cell_at(column, local_row))
            },
            r is Err ==> final(self)@ == old(self)@,
            r is Ok ==> final(self)@ == (Staged {
                cells: old(self)@.cells.insert(
                    old(self)@.cell_at(column, local_row),
                    value_view(value),
                ),
                height: old(self)@.height_with(local_row),
                ..old(self)@
            }),
            final(self)@.wf(ctx@.shape),
    {
        self.stage(ctx, ColumnKind::Advice, column, local_row, value)
    }

    /// Assigns a constant in a fixed column at a local row.
    pub fn assign_fixed(
        &mut self,
        ctx: &Layouter,
        column: Column,
        local_row: usize,
        constant: FieldElement,
    ) -> (r: Result<Cell, Error>)
        requires
            ctx@.wf(),
            old(self)@.wf(ctx@.shape),
            old(self)@.base + local_row < usize::MAX,
        ensures
            r == if column.kind != ColumnKind::Fixed || !ctx@.shape.declares(column) {
                Err::<Cell, Error>(Error::Configuration(ConfigurationError::UndeclaredColumn))
            } else if old(self)@.cells.contains_key(old(self)@.cell_at(column, local_row)) {
                Err(Error::Synthesis(SynthesisError::CellAlreadyAssigned))
            } else {
                Ok(old(self)@.cell_at(column, local_row))
            },
            r is Err ==> final(self)@ == old(self)@,
            r is Ok ==> final(self)@ == (Staged {
                cells: old(self)@.cells.insert(
                    old(self)@.cell_at(column, local_row),
                    Some(constant@),
                ),
                height: old(self)@.height_with(local_row),
                ..old(self)@
            }),
            final(self)@.wf(ctx@.shape),
    {
        self.stage(ctx, ColumnKind::Fixed, column, local_row, Some(constant))
    }

    /// Reads the public input at `instance_row` of an instance column,
    /// assigns it to an advice cell at a local row, and constrains the two
    /// cells to be equal. Returns the advice cell and the value.
    pub fn copy_from_instance(
        &mut self,
        ctx: &Layouter,
        instance: Column,
        instance_row: usize,
        dest: Column,
        local_row: usize,
    ) -> (r: Result<(Cell, FieldElement), Error>)
        requires
            ctx@.wf(),
            old(self)@.wf(ctx@.shape),
            old(self)@.base + local_row < usize::MAX,
        ensures
            match r {
                Err(e) => e == copy_fault(ctx@, old(self)@, instance, instance_row, dest, local_row)->Some_0
                    && copy_fault(ctx@, old(self)@, instance, instance_row, dest, local_row) is Some
                    && final(self)@ == old(self)@,
                Ok((cell, value)) => {
                    &&& copy_fault(ctx@, old(self)@, instance, instance_row, dest, local_row) is None
                    &&& cell == old(self)@.cell_at(dest, local_row)
                    &&& Some(value@) == ctx@.matrix.value(
                        Cell { column: instance, row: instance_row },
                    )
                    &&& final(self)@ == (Staged {
                        cells: old(self)@.cells.insert(cell, Some(value@)),
                        height: old(self)@.height_with(local_row),
                        equalities: old(self)@.equalities.push(
                            EqualityConstraint {
                                left: Cell { column: instance, row: instance_row },
                                right: cell,
                            },
                        ),
                        ..old(self)@
                    })
                },
            },
            final(self)@.wf(ctx@.shape),
    {
        let is_instance = match instance.kind {
            ColumnKind::Instance => true,
            _ => false,
        };
        let is_advice = match dest.kind {
            ColumnKind::Advice => true,
            _ => false,
        };
        if !is_instance || !ctx.cs.declares(instance) || !is_advice || !ctx.cs.declares(dest) {
            return Err(Error::Configuration(ConfigurationError::UndeclaredColumn));
        }
        if !ctx.cs.equality_enabled(instance) || !ctx.cs.equality_enabled(dest) {
            return Err(Error::Configuration(ConfigurationError::EqualityNotEnabled));
        }
        let source = Cell { column: instance, row: instance_row };
        let value = match ctx.matrix.value(source) {
            Some(v) => v,
            None => {
                return Err(Error::Synthesis(SynthesisError::InstanceOutOfBounds));
            },
        };
        let cell = self.stage(ctx, ColumnKind::Advice, dest, local_row, Some(value))?;
        self.equalities.push(EqualityConstraint { left: source, right: cell });
        Ok((cell, value))
    }

    /// Switches a selector on at a local row.
    pub fn enable_selector(&mut self, ctx: &Layouter, selector: Selector, local_row: usize) -> (r:
        Result<(), Error>)
        requires
            ctx@.wf(),
            old(self)@.wf(ctx@.shape),
            old(self)@.base + local_row < usize::MAX,
        ensures
            r == if !ctx@.shape.declares_selector(selector) {
                Err::<(), Error>(Error::Configuration(ConfigurationError::UndeclaredSelector))
            } else {
                Ok(())
            },
            r is Err ==> final(self)@ == old(self)@,
            r is Ok ==> final(self)@ == (Staged {
                enabled: old(self)@.enabled.insert(
                    (selector.index, (old(self)@.base + local_row) as usize),
                ),
                height: old(self)@.height_with(local_row),
                ..old(self)@
            }),
            final(self)@.wf(ctx@.shape),
    {
        if !ctx.cs.declares_selector(selector) {
            return Err(Error::Configuration(ConfigurationError::UndeclaredSelector));
        }
        let row = self.base + local_row;
        proof {
            lemma_activation_set_push(
                self.enabled@,
                Activation { selector: selector.index, row },
            );
        }
        self.enabled.push(Activation { selector: selector.index, row });
        self.cover(local_row);
        Ok(())
    }

    /// Constrains two cells, of this region or of earlier ones, to carry
    /// the same value.
    pub fn constrain_equal(&mut self, ctx: &Layouter, a: Cell, b: Cell) -> (r: Result<(), Error>)
        requires
            ctx@.wf(),
            old(self)@.wf(ctx@.shape),
        ensures
            r == if !ctx@.shape.equality_enabled(a.column) || !ctx@.shape.equality_enabled(
                b.column,
            ) {
                Err::<(), Error>(Error::Configuration(ConfigurationError::EqualityNotEnabled))
            } else {
                Ok(())
            },
            r is Err ==> final(self)@ == old(self)@,
            r is Ok ==> final(self)@ == (Staged {
                equalities: old(self)@.equalities.push(EqualityConstraint { left: a, right: b }),
                ..old(self)@
            }),
            final(self)@.wf(ctx@.shape),
    {
        if !ctx.cs.equality_enabled(a.column) || !ctx.cs.equality_enabled(b.column) {
            return Err(Error::Configuration(ConfigurationError::EqualityNotEnabled));
        }
        self.equalities.push(EqualityConstraint { left: a, right: b });
        Ok(())
    }
}

/// Whether `out` is a possible outcome of running `body` on the region
/// `opened`, which was just opened on `ctx` under `name`.
pub open spec fn ran<T, B: FnOnce(&Layouter, Region) -> Result<(Region, T), Error>>(
    body: B,
    ctx: Layouter,
    name: Seq<char>,
    opened: Region,
    out: Result<(Region, T), Error>,
) -> bool {
    opened@ == ctx@.fresh(name) && call_ensures(body, (&ctx, opened), out)
}

/// The fault, if any, that keeps a public input from being copied into an
/// advice cell of a region.
pub open spec fn copy_fault(
    ctx: Synthesis,
    staged: Staged,
    instance: Column,
    instance_row: usize,
    dest: Column,
    local_row: usize,
) -> Option<Error> {
    if instance.kind != ColumnKind::Instance || !ctx.shape.declares(instance) || dest.kind
        != ColumnKind::Advice || !ctx.shape.declares(dest) {
        Some(Error::Configuration(ConfigurationError::UndeclaredColumn))
    } else if !ctx.shape.equality_enabled(instance) || !ctx.shape.equality_enabled(dest) {
        Some(Error::Configuration(ConfigurationError::EqualityNotEnabled))
    } else if ctx.matrix.value(Cell { column: instance, row: instance_row }) is None {
        Some(Error::Synthesis(SynthesisError::InstanceOutOfBounds))
    } else if staged.cells.contains_key(staged.cell_at(dest, local_row)) {
        Some(Error::Synthesis(SynthesisError::CellAlreadyAssigned))
    } else {
        None
    }
}

} // verus!
