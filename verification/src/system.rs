//! The constraint system: typed columns, selectors, polynomial expressions
//! over column values at relative row offsets (rotations), and named gates.
//! Built once during a circuit's configure phase and immutable afterwards.

use vstd::prelude::*;

use crate::field::Felt;

verus! {

/// What a column holds: private witness values, externally supplied public
/// inputs, or constants baked into the circuit shape.
#[derive(Clone, Copy, PartialEq, Eq, Structural, Debug)]
pub enum ColumnKind {
    Advice,
    Instance,
    Fixed,
}

/// A column's identity: its kind and its index among columns of that kind.
#[derive(Clone, Copy, PartialEq, Eq, Structural, Debug)]
pub struct Column {
    pub kind: ColumnKind,
    pub index: usize,
}

/// A boolean-valued pseudo-column, one bit per row, that toggles gates
/// tied to it on or off per row.
#[derive(Clone, Copy, PartialEq, Eq, Structural, Debug)]
pub struct Selector {
    pub index: usize,
}

/// The atomic addressable unit of the witness: a column and an absolute row.
#[derive(Clone, Copy, PartialEq, Eq, Structural, Debug)]
pub struct Cell {
    pub column: Column,
    pub row: usize,
}

/// A configuration mistake: the circuit shape itself is ill-formed.
#[derive(Clone, Copy, PartialEq, Eq, Structural, Debug)]
pub enum ConfigError {
    /// A column was referenced that was never declared.
    UndeclaredColumn,
    /// A selector was referenced that was never declared.
    UndeclaredSelector,
    /// A copy constraint touched a column that is not equality-enabled.
    EqualityNotEnabled,
    /// A region operation was used outside a region, or a region was opened
    /// inside another.
    RegionMisuse,
}

/// A failure while assigning a concrete witness: aborts that synthesis
/// attempt.
#[derive(Clone, Copy, PartialEq, Eq, Structural, Debug)]
pub enum SynthesisError {
    /// The caller could not supply a witness value for a cell.
    MissingValue,
    /// The target cell already holds a value.
    CellAlreadyAssigned,
    /// An absolute row fell outside the 2^k rows the layouter may use.
    RowRangeExceeded,
    /// A gate was enabled at a row from which one of its rotations reaches
    /// outside the rows its region touched.
    RotationOutOfRange,
}

/// Any error surfaced while building a circuit shape or its witness.
#[derive(Clone, Copy, PartialEq, Eq, Structural, Debug)]
pub enum Error {
    Configuration(ConfigError),
    Synthesis(SynthesisError),
}

/// A polynomial over column values at rotations: the body of a gate.
pub enum Expr {
    /// A field constant.
    Constant(Felt),
    /// The value of `column` at the evaluation row shifted by `rotation`.
    Query { column: Column, rotation: i32 },
    /// Field addition of two sub-expressions.
    Sum(Box<Expr>, Box<Expr>),
    /// Field subtraction of two sub-expressions.
    Diff(Box<Expr>, Box<Expr>),
    /// Field multiplication of two sub-expressions.
    Prod(Box<Expr>, Box<Expr>),
}

impl Expr {
    /// Every query stays within the declared columns.
    pub open spec fn wf(self, n_advice: nat, n_instance: nat, n_fixed: nat) -> bool
        decreases self,
    {
        match self {
            Expr::Constant(_) => true,
            Expr::Query { column, rotation } => match column.kind {
                ColumnKind::Advice => column.index < n_advice,
                ColumnKind::Instance => column.index < n_instance,
                ColumnKind::Fixed => column.index < n_fixed,
            },
            Expr::Sum(a, b) => a.wf(n_advice, n_instance, n_fixed) && b.wf(
                n_advice,
                n_instance,
                n_fixed,
            ),
            Expr::Diff(a, b) => a.wf(n_advice, n_instance, n_fixed) && b.wf(
                n_advice,
                n_instance,
                n_fixed,
            ),
            Expr::Prod(a, b) => a.wf(n_advice, n_instance, n_fixed) && b.wf(
                n_advice,
                n_instance,
                n_fixed,
            ),
        }
    }

    /// The largest rotation any query of the expression uses.
    pub open spec fn max_rotation(self) -> int
        decreases self,
    {
        match self {
            Expr::Constant(_) => 0,
            Expr::Query { column, rotation } => rotation as int,
            Expr::Sum(a, b) => if a.max_rotation() >= b.max_rotation() {
                a.max_rotation()
            } else {
                b.max_rotation()
            },
            Expr::Diff(a, b) => if a.max_rotation() >= b.max_rotation() {
                a.max_rotation()
            } else {
                b.max_rotation()
            },
            Expr::Prod(a, b) => if a.max_rotation() >= b.max_rotation() {
                a.max_rotation()
            } else {
                b.max_rotation()
            },
        }
    }

    /// The smallest rotation any query of the expression uses.
    pub open spec fn min_rotation(self) -> int
        decreases self,
    {
        match self {
            Expr::Constant(_) => 0,
            Expr::Query { column, rotation } => rotation as int,
            Expr::Sum(a, b) => if a.min_rotation() <= b.min_rotation() {
                a.min_rotation()
            } else {
                b.min_rotation()
            },
            Expr::Diff(a, b) => if a.min_rotation() <= b.min_rotation() {
                a.min_rotation()
            } else {
                b.min_rotation()
            },
            Expr::Prod(a, b) => if a.min_rotation() <= b.min_rotation() {
                a.min_rotation()
            } else {
                b.min_rotation()
            },
        }
    }

    /// Decides `wf` against the given column counts.
    pub fn check_wf(&self, n_advice: usize, n_instance: usize, n_fixed: usize) -> (r: bool)
        ensures
            r == self.wf(n_advice as nat, n_instance as nat, n_fixed as nat),
        decreases *self,
    {
        match self {
            Expr::Constant(_) => true,
            Expr::Query { column, rotation } => match column.kind {
                ColumnKind::Advice => column.index < n_advice,
                ColumnKind::Instance => column.index < n_instance,
                ColumnKind::Fixed => column.index < n_fixed,
            },
            Expr::Sum(a, b) => a.check_wf(n_advice, n_instance, n_fixed) && b.check_wf(
                n_advice,
                n_instance,
                n_fixed,
            ),
            Expr::Diff(a, b) => a.check_wf(n_advice, n_instance, n_fixed) && b.check_wf(
                n_advice,
                n_instance,
                n_fixed,
            ),
            Expr::Prod(a, b) => a.check_wf(n_advice, n_instance, n_fixed) && b.check_wf(
                n_advice,
                n_instance,
                n_fixed,
            ),
        }
    }

    /// The queries the expression makes, left to right.
    pub open spec fn query_list(self) -> Seq<(Column, i32)>
        decreases self,
    {
        match self {
            Expr::Constant(_) => Seq::empty(),
            Expr::Query { column, rotation } => seq![(column, rotation)],
            Expr::Sum(a, b) => a.query_list() + b.query_list(),
            Expr::Diff(a, b) => a.query_list() + b.query_list(),
            Expr::Prod(a, b) => a.query_list() + b.query_list(),
        }
    }

    /// Appends `query_list` to `out`.
    pub fn collect_queries(&self, out: &mut Vec<(Column, i32)>)
        ensures
            final(out)@ == old(out)@ + self.query_list(),
        decreases *self,
    {
        match self {
            Expr::Constant(_) => {
                proof {
                    assert(out@ =~= old(out)@ + self.query_list());
                }
            },
            Expr::Query { column, rotation } => {
                out.push((*column, *rotation));
                proof {
                    assert(out@ =~= old(out)@ + self.query_list());
                }
            },
            Expr::Sum(a, b) | Expr::Diff(a, b) | Expr::Prod(a, b) => {
                a.collect_queries(out);
                b.collect_queries(out);
                proof {
                    assert(out@ =~= old(out)@ + self.query_list());
                }
            },
        }
    }

    /// Computes `max_rotation`.
    pub fn compute_max_rotation(&self) -> (r: i32)
        ensures
            r as int == self.max_rotation(),
        decreases *self,
    {
        match self {
            Expr::Constant(_) => 0,
            Expr::Query { column, rotation } => *rotation,
            Expr::Sum(a, b) | Expr::Diff(a, b) | Expr::Prod(a, b) => {
                let ra = a.compute_max_rotation();
                let rb = b.compute_max_rotation();
                if ra >= rb {
                    ra
                } else {
                    rb
                }
            },
        }
    }

    /// Computes `min_rotation`.
    pub fn compute_min_rotation(&self) -> (r: i32)
        ensures
            r as int == self.min_rotation(),
        decreases *self,
    {
        match self {
            Expr::Constant(_) => 0,
            Expr::Query { column, rotation } => *rotation,
            Expr::Sum(a, b) | Expr::Diff(a, b) | Expr::Prod(a, b) => {
                let ra = a.compute_min_rotation();
                let rb = b.compute_min_rotation();
                if ra <= rb {
                    ra
                } else {
                    rb
                }
            },
        }
    }
}

/// An expression stays well-formed when more columns are declared.
pub proof fn lemma_expr_wf_monotone(
    e: Expr,
    a1: nat,
    i1: nat,
    f1: nat,
    a2: nat,
    i2: nat,
    f2: nat,
)
    requires
        e.wf(a1, i1, f1),
        a1 <= a2,
        i1 <= i2,
        f1 <= f2,
    ensures
        e.wf(a2, i2, f2),
    decreases e,
{
    match e {
        Expr::Sum(a, b) => {
            lemma_expr_wf_monotone(*a, a1, i1, f1, a2, i2, f2);
            lemma_expr_wf_monotone(*b, a1, i1, f1, a2, i2, f2);
        },
        Expr::Diff(a, b) => {
            lemma_expr_wf_monotone(*a, a1, i1, f1, a2, i2, f2);
            lemma_expr_wf_monotone(*b, a1, i1, f1, a2, i2, f2);
        },
        Expr::Prod(a, b) => {
            lemma_expr_wf_monotone(*a, a1, i1, f1, a2, i2, f2);
            lemma_expr_wf_monotone(*b, a1, i1, f1, a2, i2, f2);
        },
        _ => {},
    }
}

/// A named polynomial constraint, active at the rows where its selector is on.
pub struct Gate {
    pub name: String,
    pub selector: Selector,
    pub poly: Expr,
}

/// The immutable shape of a circuit: its columns, which of them may appear in
/// copy constraints, its selectors and its gates.
pub struct ConstraintSystem {
    /// One entry per advice column: whether it is equality-enabled.
    pub advice_equality: Vec<bool>,
    /// One entry per instance column: whether it is equality-enabled.
    pub instance_equality: Vec<bool>,
    /// One entry per fixed column: whether it is equality-enabled.
    pub fixed_equality: Vec<bool>,
    /// How many selectors have been declared.
    pub num_selectors: usize,
    /// The declared gates.
    pub gates: Vec<Gate>,
}

impl ConstraintSystem {
    pub open spec fn spec_num_advice(self) -> nat {
        self.advice_equality@.len()
    }

    pub open spec fn spec_num_instance(self) -> nat {
        self.instance_equality@.len()
    }

    pub open spec fn spec_num_fixed(self) -> nat {
        self.fixed_equality@.len()
    }

    /// The column has been declared.
    pub open spec fn column_declared(self, c: Column) -> bool {
        match c.kind {
            ColumnKind::Advice => c.index < self.spec_num_advice(),
            ColumnKind::Instance => c.index < self.spec_num_instance(),
            ColumnKind::Fixed => c.index < self.spec_num_fixed(),
        }
    }

    /// The column is declared and may take part in copy constraints.
    pub open spec fn spec_equality_enabled(self, c: Column) -> bool {
        self.column_declared(c) && match c.kind {
            ColumnKind::Advice => self.advice_equality@[c.index as int],
            ColumnKind::Instance => self.instance_equality@[c.index as int],
            ColumnKind::Fixed => self.fixed_equality@[c.index as int],
        }
    }

    /// A gate refers only to declared selectors and columns.
    pub open spec fn gate_wf(self, g: Gate) -> bool {
        g.selector.index < self.num_selectors && g.poly.wf(
            self.spec_num_advice(),
            self.spec_num_instance(),
            self.spec_num_fixed(),
        )
    }

    /// Every declared gate is well-formed.
    pub open spec fn wf(self) -> bool {
        forall|i: int|
            0 <= i < self.gates@.len() ==> self.wf_gate_at(i)
    }

    /// Helper for `wf`, so quantifiers have a single stable trigger.
    pub open spec fn wf_gate_at(self, i: int) -> bool {
        self.gate_wf(self.gates@[i])
    }

    /// A fresh, empty constraint system.
    pub fn new() -> (r: ConstraintSystem)
        ensures
            r.spec_num_advice() == 0,
            r.spec_num_instance() == 0,
            r.spec_num_fixed() == 0,
            r.num_selectors == 0,
            r.gates@.len() == 0,
            r.wf(),
    {
        ConstraintSystem {
            advice_equality: Vec::new(),
            instance_equality: Vec::new(),
            fixed_equality: Vec::new(),
            num_selectors: 0,
            gates: Vec::new(),
        }
    }

    /// Declares one more column of the given kind; it starts out not
    /// equality-enabled.
    pub fn declare_column(&mut self, kind: ColumnKind) -> (c: Column)
        requires
            old(self).wf(),
            old(self).spec_num_advice() < usize::MAX,
            old(self).spec_num_instance() < usize::MAX,
            old(self).spec_num_fixed() < usize::MAX,
        ensures
            final(self).wf(),
            c.kind == kind,
            c.index as nat == match kind {
                ColumnKind::Advice => old(self).spec_num_advice(),
                ColumnKind::Instance => old(self).spec_num_instance(),
                ColumnKind::Fixed => old(self).spec_num_fixed(),
            },
            final(self).advice_equality@ == if kind == ColumnKind::Advice {
                old(self).advice_equality@.push(false)
            } else {
                old(self).advice_equality@
            },
            final(self).instance_equality@ == if kind == ColumnKind::Instance {
                old(self).instance_equality@.push(false)
            } else {
                old(self).instance_equality@
            },
            final(self).fixed_equality@ == if kind == ColumnKind::Fixed {
                old(self).fixed_equality@.push(false)
            } else {
                old(self).fixed_equality@
            },
            final(self).num_selectors == old(self).num_selectors,
            final(self).gates@ == old(self).gates@,
            final(self).column_declared(c),
    {
        let index = match kind {
            ColumnKind::Advice => {
                let i = self.advice_equality.len();
                self.advice_equality.push(false);
                i
            },
            ColumnKind::Instance => {
                let i = self.instance_equality.len();
                self.instance_equality.push(false);
                i
            },
            ColumnKind::Fixed => {
                let i = self.fixed_equality.len();
                self.fixed_equality.push(false);
                i
            },
        };
        proof {
            assert forall|i: int| 0 <= i < self.gates@.len() implies self.wf_gate_at(i) by {
                assert(old(self).wf_gate_at(i));
                lemma_expr_wf_monotone(
                    self.gates@[i].poly,
                    old(self).spec_num_advice(),
                    old(self).spec_num_instance(),
                    old(self).spec_num_fixed(),
                    self.spec_num_advice(),
                    self.spec_num_instance(),
                    self.spec_num_fixed(),
                );
            }
        }
        Column { kind, index }
    }

    /// Marks a declared column as allowed to take part in copy constraints.
    pub fn enable_equality(&mut self, column: Column) -> (r: Result<(), Error>)
        requires
            old(self).wf(),
        ensures
            final(self).wf(),
            r is Ok <==> old(self).column_declared(column),
            r is Err ==> *final(self) == *old(self) && r == Err::<(), Error>(
                Error::Configuration(ConfigError::UndeclaredColumn),
            ),
            r is Ok ==> final(self).spec_equality_enabled(column),
            r is Ok ==> final(self).advice_equality@ == (if column.kind == ColumnKind::Advice {
                old(self).advice_equality@.update(column.index as int, true)
            } else {
                old(self).advice_equality@
            }),
            r is Ok ==> final(self).instance_equality@ == (if column.kind
                == ColumnKind::Instance {
                old(self).instance_equality@.update(column.index as int, true)
            } else {
                old(self).instance_equality@
            }),
            r is Ok ==> final(self).fixed_equality@ == (if column.kind == ColumnKind::Fixed {
                old(self).fixed_equality@.update(column.index as int, true)
            } else {
                old(self).fixed_equality@
            }),
            r is Ok ==> forall|c: Column|
                c != column ==> #[trigger] final(self).spec_equality_enabled(c)
                    == old(self).spec_equality_enabled(c),
            final(self).spec_num_advice() == old(self).spec_num_advice(),
            final(self).spec_num_instance() == old(self).spec_num_instance(),
            final(self).spec_num_fixed() == old(self).spec_num_fixed(),
            final(self).num_selectors == old(self).num_selectors,
            final(self).gates@ == old(self).gates@,
    {
        let declared = match column.kind {
            ColumnKind::Advice => column.index < self.advice_equality.len(),
            ColumnKind::Instance => column.index < self.instance_equality.len(),
            ColumnKind::Fixed => column.index < self.fixed_equality.len(),
        };
        if !declared {
            return Err(Error::Configuration(ConfigError::UndeclaredColumn));
        }
        match column.kind {
            ColumnKind::Advice => self.advice_equality.set(column.index, true),
            ColumnKind::Instance => self.instance_equality.set(column.index, true),
            ColumnKind::Fixed => self.fixed_equality.set(column.index, true),
        }
        proof {
            assert forall|i: int| 0 <= i < self.gates@.len() implies self.wf_gate_at(i) by {
                assert(old(self).wf_gate_at(i));
            }
        }
        Ok(())
    }

    /// Declares one more selector.
    pub fn declare_selector(&mut self) -> (s: Selector)
        requires
            old(self).wf(),
            old(self).num_selectors < usize::MAX,
        ensures
            final(self).wf(),
            s.index == old(self).num_selectors,
            final(self).num_selectors == old(self).num_selectors + 1,
            final(self).advice_equality@ == old(self).advice_equality@,
            final(self).instance_equality@ == old(self).instance_equality@,
            final(self).fixed_equality@ == old(self).fixed_equality@,
            final(self).gates@ == old(self).gates@,
    {
        let index = self.num_selectors;
        self.num_selectors = self.num_selectors + 1;
        proof {
            assert forall|i: int| 0 <= i < self.gates@.len() implies self.wf_gate_at(i) by {
                assert(old(self).wf_gate_at(i));
            }
        }
        Selector { index }
    }

    /// Declares a gate: at every row where `selector` is on, `poly` must
    /// evaluate to zero. Fails on a reference to an undeclared selector
    /// or column.
    pub fn create_gate(&mut self, name: String, selector: Selector, poly: Expr) -> (r: Result<
        (),
        Error,
    >)
        requires
            old(self).wf(),
        ensures
            final(self).wf(),
            r is Ok <==> (selector.index < old(self).num_selectors && poly.wf(
                old(self).spec_num_advice(),
                old(self).spec_num_instance(),
                old(self).spec_num_fixed(),
            )),
            r is Ok ==> final(self).gates@.len() == old(self).gates@.len() + 1
                && final(self).gates@.last().selector == selector
                && final(self).gates@.last().poly == poly
                && final(self).gates@.last().name == name
                && final(self).gates@.subrange(0, old(self).gates@.len() as int)
                    == old(self).gates@,
            r is Err ==> final(self).gates@ == old(self).gates@ && (r == Err::<(), Error>(
                Error::Configuration(ConfigError::UndeclaredSelector),
            ) || r == Err::<(), Error>(Error::Configuration(ConfigError::UndeclaredColumn))),
            final(self).advice_equality@ == old(self).advice_equality@,
            final(self).instance_equality@ == old(self).instance_equality@,
            final(self).fixed_equality@ == old(self).fixed_equality@,
            final(self).num_selectors == old(self).num_selectors,
    {
        if selector.index >= self.num_selectors {
            return Err(Error::Configuration(ConfigError::UndeclaredSelector));
        }
        let n_advice = self.advice_equality.len();
        let n_instance = self.instance_equality.len();
        let n_fixed = self.fixed_equality.len();
        if !poly.check_wf(n_advice, n_instance, n_fixed) {
            return Err(Error::Configuration(ConfigError::UndeclaredColumn));
        }
        let ghost prior = *self;
        self.gates.push(Gate { name, selector, poly });
        proof {
            assert forall|i: int| 0 <= i < self.gates@.len() implies self.wf_gate_at(i) by {
                if i < prior.gates@.len() {
                    assert(prior.wf_gate_at(i));
                    assert(self.gates@[i] == prior.gates@[i]);
                }
            }
            assert(self.gates@.subrange(0, prior.gates@.len() as int) =~= prior.gates@);
        }
        Ok(())
    }
}

} // verus!
