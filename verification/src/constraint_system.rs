//! The shape of a circuit: its columns, selectors, gates and lookup
//! arguments. It is built once, frozen, and only read afterwards.
use crate::column::{Column, ColumnKind, Selector};
use crate::error::{ConfigurationError, Error};
use crate::expression::Expression;
use vstd::prelude::*;

verus! {

/// A named list of polynomials. On every row where `selector` is on, each
/// polynomial has to evaluate to zero.
#[derive(Debug, PartialEq, Eq)]
pub struct Gate {
    pub name: String,
    pub selector: Selector,
    pub polys: Vec<Expression>,
}

/// One component of a lookup: the expression that is looked up and the table
/// column it is looked up in.
#[derive(Debug, PartialEq, Eq)]
pub struct LookupInput {
    pub input: Expression,
    pub table: Column,
}

/// A named table-membership constraint. On every row where `selector` is on,
/// the tuple of input values has to be a row of the table columns.
#[derive(Debug, PartialEq, Eq)]
pub struct LookupArgument {
    pub name: String,
    pub selector: Selector,
    pub inputs: Vec<LookupInput>,
}

/// The mathematical content of a [`Gate`].
pub struct GateView {
    pub name: Seq<char>,
    pub selector: Selector,
    pub polys: Seq<Expression>,
}

/// The mathematical content of a [`LookupArgument`].
pub struct LookupView {
    pub name: Seq<char>,
    pub selector: Selector,
    pub inputs: Seq<LookupInput>,
}

impl View for Gate {
    type V = GateView;

    open spec fn view(&self) -> GateView {
        GateView { name: self.name@, selector: self.selector, polys: self.polys@ }
    }
}

impl View for LookupArgument {
    type V = LookupView;

    open spec fn view(&self) -> LookupView {
        LookupView { name: self.name@, selector: self.selector, inputs: self.inputs@ }
    }
}

/// The mathematical content of a [`ConstraintSystem`].
pub struct Shape {
    /// For each advice column, whether equality is enabled on it.
    pub advice: Seq<bool>,
    /// The same for each fixed column.
    pub fixed: Seq<bool>,
    /// The same for each instance column.
    pub instance: Seq<bool>,
    /// The number of lookup table columns.
    pub tables: nat,
    /// For each selector, whether it is complex.
    pub selectors: Seq<bool>,
    pub gates: Seq<GateView>,
    pub lookups: Seq<LookupView>,
    /// Whether declarations are closed.
    pub frozen: bool,
}

/// Whether every query in the expression names a declared advice, fixed or
/// instance column.
pub open spec fn well_scoped(e: Expression, shape: Shape) -> bool
    decreases e,
{
    match e {
        Expression::Constant(_) => true,
        Expression::Query(q) => q.column.kind != ColumnKind::LookupTable && shape.declares(
            q.column,
        ),
        Expression::Sum(a, b) => well_scoped(*a, shape) && well_scoped(*b, shape),
        Expression::Difference(a, b) => well_scoped(*a, shape) && well_scoped(*b, shape),
        Expression::Product(a, b) => well_scoped(*a, shape) && well_scoped(*b, shape),
    }
}

impl Shape {
    /// The number of declared columns of a kind.
    pub open spec fn count(self, kind: ColumnKind) -> nat {
        match kind {
            ColumnKind::Advice => self.advice.len(),
            ColumnKind::Fixed => self.fixed.len(),
            ColumnKind::Instance => self.instance.len(),
            ColumnKind::LookupTable => self.tables,
        }
    }

    /// Whether the column has been declared.
    pub open spec fn declares(self, column: Column) -> bool {
        column.index < self.count(column.kind)
    }

    /// Whether equality is enabled on the column.
    pub open spec fn equality_enabled(self, column: Column) -> bool {
        self.declares(column) && match column.kind {
            ColumnKind::Advice => self.advice[column.index as int],
            ColumnKind::Fixed => self.fixed[column.index as int],
            ColumnKind::Instance => self.instance[column.index as int],
            ColumnKind::LookupTable => false,
        }
    }

    /// Whether the selector has been declared, with this flavour.
    pub open spec fn declares_selector(self, selector: Selector) -> bool {
        selector.index < self.selectors.len() && self.selectors[selector.index as int]
            == selector.complex
    }

    /// Whether some gate is guarded by the selector.
    pub open spec fn guards_a_gate(self, selector: Selector) -> bool {
        exists|i: int| 0 <= i < self.gates.len() && (#[trigger] self.gates[i]).selector == selector
    }

    /// Whether every polynomial of the list is well scoped.
    pub open spec fn all_well_scoped(self, polys: Seq<Expression>) -> bool {
        forall|k: int| 0 <= k < polys.len() ==> well_scoped(#[trigger] polys[k], self)
    }

    /// Whether every component of a lookup is well scoped and names a
    /// declared table column.
    pub open spec fn inputs_well_scoped(self, inputs: Seq<LookupInput>) -> bool {
        forall|k: int|
            0 <= k < inputs.len() ==> {
                &&& well_scoped((#[trigger] inputs[k]).input, self)
                &&& inputs[k].table.kind == ColumnKind::LookupTable
                &&& self.declares(inputs[k].table)
            }
    }

    /// Every gate and lookup names declared columns and selectors only, a
    /// simple selector guards at most one gate, and only complex selectors
    /// guard lookups.
    pub open spec fn wf(self) -> bool {
        &&& forall|i: int|
            0 <= i < self.gates.len() ==> {
                &&& self.declares_selector((#[trigger] self.gates[i]).selector)
                &&& self.all_well_scoped(self.gates[i].polys)
            }
        &&& forall|i: int, j: int|
            0 <= i < j < self.gates.len() && (#[trigger] self.gates[i]).selector == (
            #[trigger] self.gates[j]).selector ==> self.gates[i].selector.complex
        &&& forall|i: int|
            0 <= i < self.lookups.len() ==> {
                &&& self.declares_selector((#[trigger] self.lookups[i]).selector)
                &&& self.lookups[i].selector.complex
                &&& self.inputs_well_scoped(self.lookups[i].inputs)
            }
    }
}

/// The views of a list of gates.
pub open spec fn gate_views(gates: Seq<Gate>) -> Seq<GateView> {
    gates.map_values(|g: Gate| g@)
}

/// The views of a list of lookup arguments.
pub open spec fn lookup_views(lookups: Seq<LookupArgument>) -> Seq<LookupView> {
    lookups.map_values(|l: LookupArgument| l@)
}

/// The registry of columns, selectors, gates and lookup arguments.
pub struct ConstraintSystem {
    advice: Vec<bool>,
    fixed: Vec<bool>,
    instance: Vec<bool>,
    tables: Vec<bool>,
    selectors: Vec<bool>,
    gates: Vec<Gate>,
    lookups: Vec<LookupArgument>,
    frozen: bool,
}

impl View for ConstraintSystem {
    type V = Shape;

    closed spec fn view(&self) -> Shape {
        Shape {
            advice: self.advice@,
            fixed: self.fixed@,
            instance: self.instance@,
            tables: self.tables@.len(),
            selectors: self.selectors@,
            gates: gate_views(self.gates@),
            lookups: lookup_views(self.lookups@),
            frozen: self.frozen,
        }
    }
}

impl Expression {
    /// Whether every query in the expression names a declared advice, fixed
    /// or instance column of the constraint system.
    pub fn is_well_scoped(&self, cs: &ConstraintSystem) -> (r: bool)
        ensures
            r == well_scoped(*self, cs@),
        decreases *self,
    {
        match self {
            Expression::Constant(_) => true,
            Expression::Query(q) => {
                match q.column.kind {
                    ColumnKind::LookupTable => false,
                    _ => cs.declares(q.column),
                }
            },
            Expression::Sum(a, b) => a.is_well_scoped(cs) && b.is_well_scoped(cs),
            Expression::Difference(a, b) => a.is_well_scoped(cs) && b.is_well_scoped(cs),
            Expression::Product(a, b) => a.is_well_scoped(cs) && b.is_well_scoped(cs),
        }
    }
}

impl ConstraintSystem {
    /// An empty, open constraint system.
    pub fn new() -> (cs: ConstraintSystem)
        ensures
            cs@ == (Shape {
                advice: Seq::empty(),
                fixed: Seq::empty(),
                instance: Seq::empty(),
                tables: 0,
                selectors: Seq::empty(),
                gates: Seq::empty(),
                lookups: Seq::empty(),
                frozen: false,
            }),
            cs@.wf(),
    {
        let cs = ConstraintSystem {
            advice: Vec::new(),
            fixed: Vec::new(),
            instance: Vec::new(),
            tables: Vec::new(),
            selectors: Vec::new(),
            gates: Vec::new(),
            lookups: Vec::new(),
            frozen: false,
        };
        assert(cs@.gates =~= Seq::empty());
        assert(cs@.lookups =~= Seq::empty());
        cs
    }

    /// Whether declarations are closed.
    pub fn is_frozen(&self) -> (r: bool)
        ensures
            r == self@.frozen,
    {
        self.frozen
    }

    /// Closes the declarations. From here on the shape never changes.
    pub fn freeze(&mut self)
        ensures
            final(self)@ == (Shape { frozen: true, ..old(self)@ }),
            old(self)@.wf() ==> final(self)@.wf(),
    {
        proof {
            if self@.wf() {
                lemma_wf_grows(self@, Shape { frozen: true, ..self@ });
            }
        }
        self.frozen = true;
    }

    /// The number of lookup table columns.
    pub fn table_count(&self) -> (r: usize)
        ensures
            r == self@.tables,
    {
        self.tables.len()
    }

    /// The number of declared columns of a kind.
    pub fn column_count(&self, kind: ColumnKind) -> (r: usize)
        ensures
            r == self@.count(kind),
    {
        match kind {
            ColumnKind::Advice => self.advice.len(),
            ColumnKind::Fixed => self.fixed.len(),
            ColumnKind::Instance => self.instance.len(),
            ColumnKind::LookupTable => self.tables.len(),
        }
    }

    /// The number of declared selectors.
    pub fn selector_count(&self) -> (r: usize)
        ensures
            r == self@.selectors.len(),
    {
        self.selectors.len()
    }

    /// The selector that was declared with the given index, if there is
    /// one.
    pub fn selector(&self, index: usize) -> (r: Option<Selector>)
        ensures
            r == if index < self@.selectors.len() {
                Some(Selector { index, complex: self@.selectors[index as int] })
            } else {
                None
            },
    {
        if index < self.selectors.len() {
            Some(Selector { index, complex: self.selectors[index] })
        } else {
            None
        }
    }

    /// Whether the column has been declared.
    pub fn declares(&self, column: Column) -> (r: bool)
        ensures
            r == self@.declares(column),
    {
        match column.kind {
            ColumnKind::Advice => column.index < self.advice.len(),
            ColumnKind::Fixed => column.index < self.fixed.len(),
            ColumnKind::Instance => column.index < self.instance.len(),
            ColumnKind::LookupTable => column.index < self.tables.len(),
        }
    }

    /// Whether equality is enabled on the column.
    pub fn equality_enabled(&self, column: Column) -> (r: bool)
        ensures
            r == self@.equality_enabled(column),
    {
        match column.kind {
            ColumnKind::Advice => column.index < self.advice.len() && self.advice[column.index],
            ColumnKind::Fixed => column.index < self.fixed.len() && self.fixed[column.index],
            ColumnKind::Instance => column.index < self.instance.len()
                && self.instance[column.index],
            ColumnKind::LookupTable => false,
        }
    }

    /// Whether the selector has been declared, with this flavour.
    pub fn declares_selector(&self, selector: Selector) -> (r: bool)
        ensures
            r == self@.declares_selector(selector),
    {
        selector.index < self.selectors.len() && self.selectors[selector.index] == selector.complex
    }

    /// Whether some gate is guarded by the selector.
    pub fn guards_a_gate(&self, selector: Selector) -> (r: bool)
        ensures
            r == self@.guards_a_gate(selector),
    {
        let mut i: usize = 0;
        while i < self.gates.len()
            invariant
                i <= self.gates.len(),
                forall|k: int| 0 <= k < i ==> (#[trigger] self@.gates[k]).selector != selector,
            decreases self.gates.len() - i,
        {
            if self.gates[i].selector == selector {
                assert(self@.gates[i as int].selector == selector);
                return true;
            }
            i += 1;
        }
        false
    }

    /// The gates, in the order of their declaration.
    pub fn gates(&self) -> (r: &Vec<Gate>)
        ensures
            gate_views(r@) == self@.gates,
    {
        &self.gates
    }

    /// The lookup arguments, in the order of their declaration.
    pub fn lookups(&self) -> (r: &Vec<LookupArgument>)
        ensures
            lookup_views(r@) == self@.lookups,
    {
        &self.lookups
    }

    /// Declares a new column of the given kind, without equality.
    pub fn declare_column(&mut self, kind: ColumnKind) -> (r: Result<Column, Error>)
        ensures
            old(self)@.frozen ==> r == Err::<Column, Error>(
                Error::Configuration(ConfigurationError::Frozen),
            ) && final(self)@ == old(self)@,
            !old(self)@.frozen ==> r is Ok && r->Ok_0.kind == kind && r->Ok_0.index == old(
                self,
            )@.count(kind) && final(self)@ == match kind {
                ColumnKind::Advice => Shape {
                    advice: old(self)@.advice.push(false),
                    ..old(self)@
                },
                ColumnKind::Fixed => Shape { fixed: old(self)@.fixed.push(false), ..old(self)@ },
                ColumnKind::Instance => Shape {
                    instance: old(self)@.instance.push(false),
                    ..old(self)@
                },
                ColumnKind::LookupTable => Shape { tables: old(self)@.tables + 1, ..old(self)@ },
            },
            old(self)@.wf() ==> final(self)@.wf(),
    {
        if self.frozen {
            return Err(Error::Configuration(ConfigurationError::Frozen));
        }
        let index = match kind {
            ColumnKind::Advice => {
                self.advice.push(false);
                self.advice.len() - 1
            },
            ColumnKind::Fixed => {
                self.fixed.push(false);
                self.fixed.len() - 1
            },
            ColumnKind::Instance => {
                self.instance.push(false);
                self.instance.len() - 1
            },
            ColumnKind::LookupTable => {
                self.tables.push(false);
                self.tables.len() - 1
            },
        };
        proof {
            if old(self)@.wf() {
                lemma_wf_grows(old(self)@, self@);
            }
        }
        Ok(Column { kind, index })
    }

    /// Enables copy constraints on a declared advice, fixed or instance
    /// column. The flag is set once and never revoked.
    pub fn enable_equality(&mut self, column: Column) -> (r: Result<(), Error>)
        ensures
            r == if old(self)@.frozen {
                Err::<(), Error>(Error::Configuration(ConfigurationError::Frozen))
            } else if column.kind == ColumnKind::LookupTable || !old(self)@.declares(column) {
                Err(Error::Configuration(ConfigurationError::UndeclaredColumn))
            } else if old(self)@.equality_enabled(column) {
                Err(Error::Configuration(ConfigurationError::DuplicateEquality))
            } else {
                Ok(())
            },
            r is Err ==> final(self)@ == old(self)@,
            r is Ok ==> final(self)@ == match column.kind {
                ColumnKind::Advice => Shape {
                    advice: old(self)@.advice.update(column.index as int, true),
                    ..old(self)@
                },
                ColumnKind::Fixed => Shape {
                    fixed: old(self)@.fixed.update(column.index as int, true),
                    ..old(self)@
                },
                _ => Shape {
                    instance: old(self)@.instance.update(column.index as int, true),
                    ..old(self)@
                },
            },
            old(self)@.wf() ==> final(self)@.wf(),
    {
        if self.frozen {
            return Err(Error::Configuration(ConfigurationError::Frozen));
        }
        if !self.declares(column) {
            return Err(Error::Configuration(ConfigurationError::UndeclaredColumn));
        }
        if self.equality_enabled(column) {
            return Err(Error::Configuration(ConfigurationError::DuplicateEquality));
        }
        match column.kind {
            ColumnKind::Advice => {
                self.advice[column.index] = true;
            },
            ColumnKind::Fixed => {
                self.fixed[column.index] = true;
            },
            ColumnKind::Instance => {
                self.instance[column.index] = true;
            },
            ColumnKind::LookupTable => {
                return Err(Error::Configuration(ConfigurationError::UndeclaredColumn));
            },
        }
        proof {
            if old(self)@.wf() {
                lemma_wf_grows(old(self)@, self@);
            }
        }
        Ok(())
    }

    /// Declares a new selector, simple or complex.
    pub fn declare_selector(&mut self, complex: bool) -> (r: Result<Selector, Error>)
        ensures
            old(self)@.frozen ==> r == Err::<Selector, Error>(
                Error::Configuration(ConfigurationError::Frozen),
            ) && final(self)@ == old(self)@,
            !old(self)@.frozen ==> r is Ok && r->Ok_0.complex == complex && r->Ok_0.index == old(
                self,
            )@.selectors.len() && final(self)@ == (Shape {
                selectors: old(self)@.selectors.push(complex),
                ..old(self)@
            }),
            old(self)@.wf() ==> final(self)@.wf(),
    {
        if self.frozen {
            return Err(Error::Configuration(ConfigurationError::Frozen));
        }
        self.selectors.push(complex);
        proof {
            if old(self)@.wf() {
                lemma_wf_grows(old(self)@, self@);
            }
        }
        Ok(Selector { index: self.selectors.len() - 1, complex })
    }

    /// Whether every polynomial of the list is well scoped.
    fn all_well_scoped(&self, polys: &Vec<Expression>) -> (r: bool)
        ensures
            r == self@.all_well_scoped(polys@),
    {
        let mut k: usize = 0;
        while k < polys.len()
            invariant
                k <= polys.len(),
                forall|j: int| 0 <= j < k ==> well_scoped(#[trigger] polys@[j], self@),
            decreases polys.len() - k,
        {
            if !polys[k].is_well_scoped(self) {
                return false;
            }
            k += 1;
        }
        true
    }

    /// Whether every component of a lookup is well scoped and names a
    /// declared table column.
    fn inputs_well_scoped(&self, inputs: &Vec<LookupInput>) -> (r: bool)
        ensures
            r == self@.inputs_well_scoped(inputs@),
    {
        let mut k: usize = 0;
        while k < inputs.len()
            invariant
                k <= inputs.len(),
                forall|j: int|
                    0 <= j < k ==> {
                        &&& well_scoped((#[trigger] inputs@[j]).input, self@)
                        &&& inputs@[j].table.kind == ColumnKind::LookupTable
                        &&& self@.declares(inputs@[j].table)
                    },
            decreases inputs.len() - k,
        {
            let table = inputs[k].table;
            let is_table = match table.kind {
                ColumnKind::LookupTable => true,
                _ => false,
            };
            if !is_table || !self.declares(table) || !inputs[k].input.is_well_scoped(self) {
                return false;
            }
            k += 1;
        }
        true
    }

    /// Declares a gate. Wherever `selector` is switched on, each polynomial
    /// of `polys` has to vanish. The polynomials are stored, not evaluated.
    pub fn create_gate(&mut self, name: &str, selector: Selector, polys: Vec<Expression>) -> (r:
        Result<(), Error>)
        ensures
            r == if old(self)@.frozen {
                Err::<(), Error>(Error::Configuration(ConfigurationError::Frozen))
            } else if !old(self)@.declares_selector(selector) {
                Err(Error::Configuration(ConfigurationError::UndeclaredSelector))
            } else if !selector.complex && old(self)@.guards_a_gate(selector) {
                Err(Error::Configuration(ConfigurationError::SelectorMisuse))
            } else if !old(self)@.all_well_scoped(polys@) {
                Err(Error::Configuration(ConfigurationError::UndeclaredColumn))
            } else {
                Ok(())
            },
            r is Err ==> final(self)@ == old(self)@,
            r is Ok ==> final(self)@ == (Shape {
                gates: old(self)@.gates.push(GateView { name: name@, selector, polys: polys@ }),
                ..old(self)@
            }),
            old(self)@.wf() ==> final(self)@.wf(),
    {
        if self.frozen {
            return Err(Error::Configuration(ConfigurationError::Frozen));
        }
        if !self.declares_selector(selector) {
            return Err(Error::Configuration(ConfigurationError::UndeclaredSelector));
        }
        if !selector.complex && self.guards_a_gate(selector) {
            return Err(Error::Configuration(ConfigurationError::SelectorMisuse));
        }
        if !self.all_well_scoped(&polys) {
            return Err(Error::Configuration(ConfigurationError::UndeclaredColumn));
        }
        let gate = Gate { name: name.to_owned(), selector, polys };
        self.gates.push(gate);
        proof {
            assert(self@.gates =~= old(self)@.gates.push(gate@));
            if old(self)@.wf() {
                let before = old(self)@;
                let after = self@;
                lemma_scope_grows(before, after);
                assert forall|i: int| 0 <= i < after.gates.len() implies {
                    &&& after.declares_selector((#[trigger] after.gates[i]).selector)
                    &&& after.all_well_scoped(after.gates[i].polys)
                } by {
                    if i < before.gates.len() {
                        assert(before.all_well_scoped(before.gates[i].polys));
                    }
                }
                assert forall|i: int, j: int|
                    0 <= i < j < after.gates.len() && (#[trigger] after.gates[i]).selector == (
                    #[trigger] after.gates[j]).selector implies after.gates[i].selector.complex by {
                    if j == before.gates.len() {
                        assert(before.gates[i].selector == selector);
                    } else {
                        assert(before.gates[i].selector == before.gates[j].selector);
                    }
                }
                assert forall|i: int| 0 <= i < after.lookups.len() implies after.inputs_well_scoped(
                    (#[trigger] after.lookups[i]).inputs,
                ) by {
                    assert(before.inputs_well_scoped(before.lookups[i].inputs));
                }
            }
        }
        Ok(())
    }

    /// Declares a lookup argument: on every row where `selector` is on, the
    /// tuple of input values has to be a row of the named table columns.
    pub fn add_lookup(&mut self, name: &str, selector: Selector, inputs: Vec<LookupInput>) -> (r:
        Result<(), Error>)
        ensures
            r == if old(self)@.frozen {
                Err::<(), Error>(Error::Configuration(ConfigurationError::Frozen))
            } else if !old(self)@.declares_selector(selector) {
                Err(Error::Configuration(ConfigurationError::UndeclaredSelector))
            } else if !selector.complex {
                Err(Error::Configuration(ConfigurationError::SelectorMisuse))
            } else if !old(self)@.inputs_well_scoped(inputs@) {
                Err(Error::Configuration(ConfigurationError::UndeclaredColumn))
            } else {
                Ok(())
            },
            r is Err ==> final(self)@ == old(self)@,
            r is Ok ==> final(self)@ == (Shape {
                lookups: old(self)@.lookups.push(
                    LookupView { name: name@, selector, inputs: inputs@ },
                ),
                ..old(self)@
            }),
            old(self)@.wf() ==> final(self)@.wf(),
    {
        if self.frozen {
            return Err(Error::Configuration(ConfigurationError::Frozen));
        }
        if !self.declares_selector(selector) {
            return Err(Error::Configuration(ConfigurationError::UndeclaredSelector));
        }
        if !selector.complex {
            return Err(Error::Configuration(ConfigurationError::SelectorMisuse));
        }
        if !self.inputs_well_scoped(&inputs) {
            return Err(Error::Configuration(ConfigurationError::UndeclaredColumn));
        }
        let lookup = LookupArgument { name: name.to_owned(), selector, inputs };
        self.lookups.push(lookup);
        proof {
            assert(self@.lookups =~= old(self)@.lookups.push(lookup@));
            if old(self)@.wf() {
                let before = old(self)@;
                let after = self@;
                lemma_scope_grows(before, after);
                assert forall|i: int| 0 <= i < after.gates.len() implies after.all_well_scoped(
                    (#[trigger] after.gates[i]).polys,
                ) by {
                    assert(before.all_well_scoped(before.gates[i].polys));
                }
                assert forall|i: int| 0 <= i < after.lookups.len() implies {
                    &&& after.declares_selector((#[trigger] after.lookups[i]).selector)
                    &&& after.lookups[i].selector.complex
                    &&& after.inputs_well_scoped(after.lookups[i].inputs)
                } by {
                    if i < before.lookups.len() {
                        assert(before.inputs_well_scoped(before.lookups[i].inputs));
                    }
                }
            }
        }
        Ok(())
    }
}

/// What is well scoped in a shape is well scoped in every shape that
/// declares at least the same columns.
pub proof fn lemma_scope_grows(before: Shape, after: Shape)
    requires
        forall|c: Column| before.declares(c) ==> after.declares(c),
    ensures
        forall|polys: Seq<Expression>| #[trigger]
            before.all_well_scoped(polys) ==> after.all_well_scoped(polys),
        forall|inputs: Seq<LookupInput>| #[trigger]
            before.inputs_well_scoped(inputs) ==> after.inputs_well_scoped(inputs),
{
    assert forall|e: Expression| well_scoped(e, before) implies well_scoped(e, after) by {
        lemma_well_scoped_grows(e, before, after);
    }
}

/// A shape stays well formed when columns and selectors are added to it.
pub proof fn lemma_wf_grows(before: Shape, after: Shape)
    requires
        before.wf(),
        before.gates == after.gates,
        before.lookups == after.lookups,
        forall|c: Column| before.declares(c) ==> after.declares(c),
        forall|s: Selector| before.declares_selector(s) ==> after.declares_selector(s),
    ensures
        after.wf(),
{
    lemma_scope_grows(before, after);
}

/// A well-scoped expression stays so when columns are added.
pub proof fn lemma_well_scoped_grows(e: Expression, before: Shape, after: Shape)
    requires
        well_scoped(e, before),
        forall|c: Column| before.declares(c) ==> after.declares(c),
    ensures
        well_scoped(e, after),
    decreases e,
{
    match e {
        Expression::Constant(_) => {},
        Expression::Query(q) => {},
        Expression::Sum(a, b) => {
            lemma_well_scoped_grows(*a, before, after);
            lemma_well_scoped_grows(*b, before, after);
        },
        Expression::Difference(a, b) => {
            lemma_well_scoped_grows(*a, before, after);
            lemma_well_scoped_grows(*b, before, after);
        },
        Expression::Product(a, b) => {
            lemma_well_scoped_grows(*a, before, after);
            lemma_well_scoped_grows(*b, before, after);
        },
    }
}

} // verus!
