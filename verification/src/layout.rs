//! The synthesis side of the engine: the witness store (the concrete matrix of
//! field values per column and absolute row), the layouter that hands out
//! contiguous row ranges to named regions, the copy-constraint tracker, and the
//! bindings of cells to public inputs. After synthesis the layouter is frozen
//! into an immutable bundle that the satisfiability checker reads.

use vstd::prelude::*;

use crate::field::Felt;
use crate::system::{Cell, Column, ColumnKind, ConfigError, ConstraintSystem, Error, Selector,
    SynthesisError};

verus! {

/// True unless the slot holds a non-canonical element.
pub open spec fn opt_canonical(o: Option<Felt>) -> bool {
    match o {
        Some(f) => f.is_canonical(),
        None => true,
    }
}

/// The witness store: per (column, absolute row) an optional field value,
/// assigned at most once, plus the per-row selector bits.
pub struct Witness {
    /// The number of usable rows, 2^k.
    pub n_rows: usize,
    /// Advice values, indexed by column then row; `None` is "unassigned".
    pub advice: Vec<Vec<Option<Felt>>>,
    /// Fixed values, indexed by column then row.
    pub fixed: Vec<Vec<Option<Felt>>>,
    /// Selector bits, indexed by selector then row.
    pub selectors: Vec<Vec<bool>>,
}

impl Witness {
    pub open spec fn advice_at(self, c: int, r: int) -> Option<Felt> {
        self.advice@[c]@[r]
    }

    pub open spec fn fixed_at(self, c: int, r: int) -> Option<Felt> {
        self.fixed@[c]@[r]
    }

    /// Whether selector `s` is on at row `r`.
    pub open spec fn sel_on(self, s: int, r: int) -> bool {
        self.selectors@[s]@[r]
    }

    /// The store's dimensions match the constraint system, and every assigned
    /// value is canonical.
    pub open spec fn wf(self, cs: ConstraintSystem) -> bool {
        &&& self.advice@.len() == cs.spec_num_advice()
        &&& self.fixed@.len() == cs.spec_num_fixed()
        &&& self.selectors@.len() == cs.num_selectors
        &&& self.internal_wf()
    }

    /// Every column holds exactly `n_rows` slots and every assigned value is
    /// canonical, independent of any constraint system.
    pub open spec fn internal_wf(self) -> bool {
        &&& forall|c: int|
            0 <= c < self.advice@.len() ==> (#[trigger] self.advice@[c])@.len() == self.n_rows
        &&& forall|c: int|
            0 <= c < self.fixed@.len() ==> (#[trigger] self.fixed@[c])@.len() == self.n_rows
        &&& forall|s: int|
            0 <= s < self.selectors@.len() ==> (#[trigger] self.selectors@[s])@.len()
                == self.n_rows
        &&& forall|c: int, r: int|
            0 <= c < self.advice@.len() && 0 <= r < self.n_rows ==> opt_canonical(
                #[trigger] self.advice_at(c, r),
            )
        &&& forall|c: int, r: int|
            0 <= c < self.fixed@.len() && 0 <= r < self.n_rows ==> opt_canonical(
                #[trigger] self.fixed_at(c, r),
            )
    }

    /// A fresh store: everything unassigned, every selector off.
    pub fn new(cs: &ConstraintSystem, n_rows: usize) -> (w: Witness)
        ensures
            w.wf(*cs),
            w.n_rows == n_rows,
            forall|c: int, r: int|
                0 <= c < cs.spec_num_advice() && 0 <= r < n_rows ==> #[trigger] w.advice_at(c, r)
                    is None,
            forall|c: int, r: int|
                0 <= c < cs.spec_num_fixed() && 0 <= r < n_rows ==> #[trigger] w.fixed_at(c, r)
                    is None,
            forall|s: int, r: int|
                0 <= s < cs.num_selectors && 0 <= r < n_rows ==> !(#[trigger] w.sel_on(s, r)),
    {
        let n_advice = cs.advice_equality.len();
        let n_fixed = cs.fixed_equality.len();
        let mut advice: Vec<Vec<Option<Felt>>> = Vec::new();
        while advice.len() < n_advice
            invariant
                advice@.len() <= n_advice,
                forall|c: int|
                    0 <= c < advice@.len() ==> (#[trigger] advice@[c])@.len() == n_rows
                        && forall|r: int| 0 <= r < n_rows ==> advice@[c]@[r] is None,
            decreases n_advice - advice@.len(),
        {
            advice.push(unassigned_rows(n_rows));
        }
        let mut fixed: Vec<Vec<Option<Felt>>> = Vec::new();
        while fixed.len() < n_fixed
            invariant
                fixed@.len() <= n_fixed,
                forall|c: int|
                    0 <= c < fixed@.len() ==> (#[trigger] fixed@[c])@.len() == n_rows
                        && forall|r: int| 0 <= r < n_rows ==> fixed@[c]@[r] is None,
            decreases n_fixed - fixed@.len(),
        {
            fixed.push(unassigned_rows(n_rows));
        }
        let mut selectors: Vec<Vec<bool>> = Vec::new();
        while selectors.len() < cs.num_selectors
            invariant
                selectors@.len() <= cs.num_selectors,
                forall|s: int|
                    0 <= s < selectors@.len() ==> (#[trigger] selectors@[s])@.len() == n_rows
                        && forall|r: int| 0 <= r < n_rows ==> !selectors@[s]@[r],
            decreases cs.num_selectors - selectors@.len(),
        {
            selectors.push(off_rows(n_rows));
        }
        Witness { n_rows, advice, fixed, selectors }
    }
}

/// A column of `n_rows` unassigned cells.
fn unassigned_rows(n_rows: usize) -> (v: Vec<Option<Felt>>)
    ensures
        v@.len() == n_rows,
        forall|r: int| 0 <= r < n_rows ==> v@[r] is None,
{
    let mut v: Vec<Option<Felt>> = Vec::new();
    while v.len() < n_rows
        invariant
            v@.len() <= n_rows,
            forall|r: int| 0 <= r < v@.len() ==> v@[r] is None,
        decreases n_rows - v@.len(),
    {
        v.push(None);
    }
    v
}

/// A selector column with every row off.
fn off_rows(n_rows: usize) -> (v: Vec<bool>)
    ensures
        v@.len() == n_rows,
        forall|r: int| 0 <= r < n_rows ==> !v@[r],
{
    let mut v: Vec<bool> = Vec::new();
    while v.len() < n_rows
        invariant
            v@.len() <= n_rows,
            forall|r: int| 0 <= r < v@.len() ==> !v@[r],
        decreases n_rows - v@.len(),
    {
        v.push(false);
    }
    v
}

/// A handle to an assigned cell together with the value it was given; a
/// read-only back-reference for chaining values between regions.
#[derive(Clone, Copy, PartialEq, Eq, Structural, Debug)]
pub struct AssignedCell {
    pub cell: Cell,
    pub value: Felt,
}

impl AssignedCell {
    /// The cell this handle points at.
    pub fn cell(&self) -> (c: Cell)
        ensures
            c == self.cell,
    {
        self.cell
    }

    /// The value the cell was assigned.
    pub fn value(&self) -> (v: Felt)
        ensures
            v == self.value,
    {
        self.value
    }
}

/// A finished synthesis: the circuit shape, the frozen witness store, the
/// recorded copy constraints and the public-input bindings, ready for the
/// satisfiability checker. Nothing mutates it afterwards.
pub struct Frozen {
    pub cs: ConstraintSystem,
    pub witness: Witness,
    pub copies: Vec<(Cell, Cell)>,
    pub bindings: Vec<InstanceBinding>,
}

impl Frozen {
    pub open spec fn wf(self) -> bool {
        &&& self.cs.wf()
        &&& self.witness.wf(self.cs)
        &&& self.witness.n_rows <= 0x4000_0000
        &&& copies_wf(self.copies@, self.cs, self.witness.n_rows as int)
        &&& bindings_wf(self.bindings@, self.cs, self.witness.n_rows as int)
    }

    /// The cell lies in the store and holds no value. An instance cell is
    /// never unassigned here: its value is the public input supplied at check
    /// time.
    pub open spec fn cell_unassigned(self, c: Cell) -> bool {
        match c.column.kind {
            ColumnKind::Advice => c.column.index < self.witness.advice@.len() && c.row
                < self.witness.n_rows && self.witness.advice_at(
                c.column.index as int,
                c.row as int,
            ) is None,
            ColumnKind::Fixed => c.column.index < self.witness.fixed@.len() && c.row
                < self.witness.n_rows && self.witness.fixed_at(
                c.column.index as int,
                c.row as int,
            ) is None,
            ColumnKind::Instance => false,
        }
    }

    /// The cell is unassigned and some recorded copy constraint touches it.
    pub open spec fn copy_touched_unassigned(self, c: Cell) -> bool {
        self.cell_unassigned(c) && exists|p: int|
            0 <= p < self.copies@.len() && ((#[trigger] self.copies@[p]).0 == c
                || self.copies@[p].1 == c)
    }

    /// Whether the cell is in the store and unassigned.
    fn is_unassigned(&self, c: Cell) -> (r: bool)
        requires
            self.wf(),
        ensures
            r == self.cell_unassigned(c),
    {
        match c.column.kind {
            ColumnKind::Advice => c.column.index < self.witness.advice.len() && c.row
                < self.witness.n_rows && self.witness.advice[c.column.index][c.row].is_none(),
            ColumnKind::Fixed => c.column.index < self.witness.fixed.len() && c.row
                < self.witness.n_rows && self.witness.fixed[c.column.index][c.row].is_none(),
            ColumnKind::Instance => false,
        }
    }

    /// Half of the freeze's diagnostic report: every cell a recorded copy
    /// constraint touches that is still unassigned. Such a cell makes the
    /// circuit unsatisfiable whatever the gates say. `dangling_gate_cells`
    /// reports the cells the gates read.
    pub fn dangling_copy_cells(&self) -> (r: Vec<Cell>)
        requires
            self.wf(),
        ensures
            forall|i: int|
                0 <= i < r@.len() ==> self.copy_touched_unassigned(#[trigger] r@[i]),
            forall|p: int|
                0 <= p < self.copies@.len() ==> {
                    let pair = #[trigger] self.copies@[p];
                    &&& (self.cell_unassigned(pair.0) ==> r@.contains(pair.0))
                    &&& (self.cell_unassigned(pair.1) ==> r@.contains(pair.1))
                },
    {
        let mut r: Vec<Cell> = Vec::new();
        let mut i: usize = 0;
        while i < self.copies.len()
            invariant
                i <= self.copies@.len(),
                self.wf(),
                forall|j: int|
                    0 <= j < r@.len() ==> self.copy_touched_unassigned(#[trigger] r@[j]),
                forall|p: int|
                    0 <= p < i ==> {
                        let pair = #[trigger] self.copies@[p];
                        &&& (self.cell_unassigned(pair.0) ==> r@.contains(pair.0))
                        &&& (self.cell_unassigned(pair.1) ==> r@.contains(pair.1))
                    },
            decreases self.copies@.len() - i,
        {
            let pair = self.copies[i];
            let ghost before = r@;
            if self.is_unassigned(pair.0) {
                r.push(pair.0);
            }
            if self.is_unassigned(pair.1) {
                r.push(pair.1);
            }
            proof {
                assert forall|x: Cell| before.contains(x) implies r@.contains(x) by {
                    let k = choose|k: int| 0 <= k < before.len() && before[k] == x;
                    assert(r@[k] == x);
                }
                if self.cell_unassigned(self.copies@[i as int].0) {
                    assert(r@[before.len() as int] == self.copies@[i as int].0);
                    assert(r@.contains(self.copies@[i as int].0));
                }
                if self.cell_unassigned(self.copies@[i as int].1) {
                    assert(r@.last() == self.copies@[i as int].1);
                    assert(r@.contains(self.copies@[i as int].1));
                }
            }
            i = i + 1;
        }
        r
    }

    /// The other half of the freeze's diagnostic report: every cell an
    /// enabled gate reads -- for each gate, each row where its selector is
    /// on, and each query whose target stays in the row range -- that is
    /// still unassigned, in that order.
    #[verifier::loop_isolation(false)]
    pub fn dangling_gate_cells(&self) -> (r: Vec<Cell>)
        requires
            self.wf(),
        ensures
            r@ == spec_dangling_gate_cells(*self),
    {
        let mut r: Vec<Cell> = Vec::new();
        let mut gi: usize = 0;
        proof {
            assert(r@ =~= dangling_gates_upto(*self, 0));
        }
        while gi < self.cs.gates.len()
            invariant
                gi <= self.cs.gates@.len(),
                r@ == dangling_gates_upto(*self, gi as int),
            decreases self.cs.gates@.len() - gi,
        {
            proof {
                assert(self.cs.wf_gate_at(gi as int));
            }
            let mut qs: Vec<(Column, i32)> = Vec::new();
            self.cs.gates[gi].poly.collect_queries(&mut qs);
            let sel = self.cs.gates[gi].selector;
            let mut rr: usize = 0;
            proof {
                assert(qs@ =~= self.cs.gates@[gi as int].poly.query_list());
            }
            while rr < self.witness.n_rows
                invariant
                    rr <= self.witness.n_rows,
                    qs@ == self.cs.gates@[gi as int].poly.query_list(),
                    gi < self.cs.gates@.len(),
                    sel == self.cs.gates@[gi as int].selector,
                    r@ == dangling_gates_upto(*self, gi as int) + dangling_gate_rows(
                        *self,
                        qs@,
                        sel,
                        rr as int,
                    ),
                decreases self.witness.n_rows - rr,
            {
                if self.witness.selectors[sel.index][rr] {
                    let mut qi: usize = 0;
                    while qi < qs.len()
                        invariant
                            qi <= qs@.len(),
                            r@ == dangling_gates_upto(*self, gi as int) + dangling_gate_rows(
                                *self,
                                qs@,
                                sel,
                                rr as int,
                            ) + dangling_in_queries(*self, qs@, rr as int, qi as int),
                        decreases qs@.len() - qi,
                    {
                        let (col, rot) = qs[qi];
                        let t = rr as i64 + rot as i64;
                        if t >= 0 && t < self.witness.n_rows as i64 {
                            let cell = Cell { column: col, row: t as usize };
                            if self.is_unassigned(cell) {
                                r.push(cell);
                            }
                        }
                        proof {
                            assert(r@ =~= dangling_gates_upto(*self, gi as int)
                                + dangling_gate_rows(*self, qs@, sel, rr as int)
                                + dangling_in_queries(*self, qs@, rr as int, qi + 1));
                        }
                        qi = qi + 1;
                    }
                }
                proof {
                    assert(r@ =~= dangling_gates_upto(*self, gi as int) + dangling_gate_rows(
                        *self,
                        qs@,
                        sel,
                        rr + 1,
                    ));
                }
                rr = rr + 1;
            }
            proof {
                assert(r@ =~= dangling_gates_upto(*self, gi + 1));
            }
            gi = gi + 1;
        }
        r
    }
}

/// The unassigned in-range cells among the first `n` query targets of one
/// enabled row.
pub open spec fn dangling_in_queries(
    f: Frozen,
    qs: Seq<(Column, i32)>,
    rr: int,
    n: int,
) -> Seq<Cell>
    decreases n,
{
    if n <= 0 {
        Seq::empty()
    } else {
        dangling_in_queries(f, qs, rr, n - 1) + {
            let t = rr + qs[n - 1].1;
            let cell = Cell { column: qs[n - 1].0, row: t as usize };
            if 0 <= t < f.witness.n_rows && f.cell_unassigned(cell) {
                seq![cell]
            } else {
                Seq::<Cell>::empty()
            }
        }
    }
}

/// The unassigned cells one gate's queries reach from its enabled rows among
/// `[0, rr)`.
pub open spec fn dangling_gate_rows(
    f: Frozen,
    qs: Seq<(Column, i32)>,
    sel: Selector,
    rr: int,
) -> Seq<Cell>
    decreases rr,
{
    if rr <= 0 {
        Seq::empty()
    } else {
        dangling_gate_rows(f, qs, sel, rr - 1) + (if f.witness.sel_on(sel.index as int, rr - 1) {
            dangling_in_queries(f, qs, rr - 1, qs.len() as int)
        } else {
            Seq::<Cell>::empty()
        })
    }
}

/// The unassigned gate-read cells of the first `gi` gates.
pub open spec fn dangling_gates_upto(f: Frozen, gi: int) -> Seq<Cell>
    decreases gi,
{
    if gi <= 0 {
        Seq::empty()
    } else {
        dangling_gates_upto(f, gi - 1) + dangling_gate_rows(
            f,
            f.cs.gates@[gi - 1].poly.query_list(),
            f.cs.gates@[gi - 1].selector,
            f.witness.n_rows as int,
        )
    }
}

/// Every cell an enabled gate reads, within the row range, that is still
/// unassigned at freeze time.
pub open spec fn spec_dangling_gate_cells(f: Frozen) -> Seq<Cell> {
    dangling_gates_upto(f, f.cs.gates@.len() as int)
}

/// One recorded binding: the witness value of `cell` must equal the public
/// input supplied for instance column `column` at position `index`.
#[derive(Clone, Copy, PartialEq, Eq, Structural, Debug)]
pub struct InstanceBinding {
    pub cell: Cell,
    pub column: Column,
    pub index: usize,
}

/// The layouter: sequences named regions over the witness store, records copy
/// constraints and public-input bindings, and hides absolute row numbers from
/// circuit code.
pub struct Layouter {
    /// The immutable circuit shape.
    pub cs: ConstraintSystem,
    /// The witness store being filled.
    pub witness: Witness,
    /// Recorded copy constraints: unordered pairs of equality-enabled cells.
    pub copies: Vec<(Cell, Cell)>,
    /// Recorded public-input bindings.
    pub bindings: Vec<InstanceBinding>,
    /// The first absolute row not used by any closed region.
    pub cursor: usize,
    /// Whether a region is open.
    pub in_region: bool,
    /// Rows touched so far by the open region (largest relative row + 1).
    pub region_extent: usize,
}

/// Both cells of every recorded pair lie on equality-enabled columns, within
/// the row range.
pub open spec fn copies_wf(copies: Seq<(Cell, Cell)>, cs: ConstraintSystem, n_rows: int) -> bool {
    forall|i: int|
        0 <= i < copies.len() ==> {
            let pair = #[trigger] copies[i];
            &&& cs.spec_equality_enabled(pair.0.column)
            &&& cs.spec_equality_enabled(pair.1.column)
            &&& pair.0.row < n_rows
            &&& pair.1.row < n_rows
        }
}

/// Every recorded binding points at a declared cell and a declared instance
/// column, within the row range.
pub open spec fn bindings_wf(
    bindings: Seq<InstanceBinding>,
    cs: ConstraintSystem,
    n_rows: int,
) -> bool {
    forall|i: int|
        0 <= i < bindings.len() ==> {
            let b = #[trigger] bindings[i];
            &&& cs.column_declared(b.cell.column)
            &&& b.cell.row < n_rows
            &&& b.column.kind == ColumnKind::Instance
            &&& cs.column_declared(b.column)
        }
}

impl Layouter {
    pub open spec fn wf(self) -> bool {
        &&& self.cs.wf()
        &&& self.witness.wf(self.cs)
        &&& self.witness.n_rows <= 0x4000_0000
        &&& self.cursor + self.region_extent <= self.witness.n_rows
        &&& (!self.in_region ==> self.region_extent == 0)
        &&& copies_wf(self.copies@, self.cs, self.witness.n_rows as int)
        &&& bindings_wf(self.bindings@, self.cs, self.witness.n_rows as int)
        &&& self.rows_ahead_untouched()
    }

    /// Rows no closed or open region has reached are still blank: every
    /// advice cell unassigned and every selector off.
    pub open spec fn rows_ahead_untouched(self) -> bool {
        &&& forall|c: int, r: int|
            0 <= c < self.witness.advice@.len() && self.cursor + self.region_extent <= r
                < self.witness.n_rows ==> #[trigger] self.witness.advice_at(c, r) is None
        &&& forall|s: int, r: int|
            0 <= s < self.witness.selectors@.len() && self.cursor + self.region_extent <= r
                < self.witness.n_rows ==> !(#[trigger] self.witness.sel_on(s, r))
    }

    /// A fresh layouter over 2^k rows for the given circuit shape.
    pub fn new(cs: ConstraintSystem, k: u32) -> (r: Layouter)
        requires
            cs.wf(),
            k < 30,
        ensures
            r.wf(),
            r.cs == cs,
            r.witness.n_rows == (1usize << k),
            r.cursor == 0,
            !r.in_region,
            r.copies@.len() == 0,
            r.bindings@.len() == 0,
            forall|c: int, row: int|
                0 <= c < cs.spec_num_advice() && 0 <= row < r.witness.n_rows
                    ==> #[trigger] r.witness.advice_at(c, row) is None,
            forall|c: int, row: int|
                0 <= c < cs.spec_num_fixed() && 0 <= row < r.witness.n_rows
                    ==> #[trigger] r.witness.fixed_at(c, row) is None,
            forall|s: int, row: int|
                0 <= s < cs.num_selectors && 0 <= row < r.witness.n_rows ==> !(
                #[trigger] r.witness.sel_on(s, row)),
    {
        let n_rows = 1usize << k;
        proof {
            assert(1usize << k <= 0x4000_0000usize) by (bit_vector)
                requires
                    k < 30,
            ;
        }
        let witness = Witness::new(&cs, n_rows);
        Layouter {
            cs,
            witness,
            copies: Vec::new(),
            bindings: Vec::new(),
            cursor: 0,
            in_region: false,
            region_extent: 0,
        }
    }

    /// Purely diagnostic labelling of the calls nested under it; no effect on
    /// row placement.
    pub fn namespace(&self, _label: &str) {
    }

    /// Opens the next region; it will occupy rows starting at the current
    /// cursor, as many as the region touches.
    pub fn enter_region(&mut self, _name: &str) -> (r: Result<(), Error>)
        requires
            old(self).wf(),
        ensures
            final(self).wf(),
            r is Ok <==> !old(self).in_region,
            r is Err ==> *final(self) == *old(self) && r == Err::<(), Error>(
                Error::Configuration(ConfigError::RegionMisuse),
            ),
            r is Ok ==> *final(self) == (Layouter {
                in_region: true,
                region_extent: 0,
                ..*old(self)
            }),
    {
        if self.in_region {
            return Err(Error::Configuration(ConfigError::RegionMisuse));
        }
        self.in_region = true;
        self.region_extent = 0;
        Ok(())
    }

    /// The first error `assign_advice` runs into, if any.
    pub open spec fn spec_assign_advice_err(
        self,
        column: Column,
        offset: int,
        value: Option<Felt>,
    ) -> Option<Error> {
        if !self.in_region {
            Some(Error::Configuration(ConfigError::RegionMisuse))
        } else if !(column.kind == ColumnKind::Advice && self.cs.column_declared(column)) {
            Some(Error::Configuration(ConfigError::UndeclaredColumn))
        } else if value is None {
            Some(Error::Synthesis(SynthesisError::MissingValue))
        } else if self.cursor + offset >= self.witness.n_rows {
            Some(Error::Synthesis(SynthesisError::RowRangeExceeded))
        } else if self.witness.advice_at(column.index as int, self.cursor + offset) is Some {
            Some(Error::Synthesis(SynthesisError::CellAlreadyAssigned))
        } else {
            None
        }
    }

    /// Assigns a value to an advice cell of the open region, addressed by its
    /// 0-based row within the region. A missing value is a synthesis error,
    /// never a silent default; a cell is assigned at most once.
    pub fn assign_advice(&mut self, column: Column, offset: usize, value: Option<Felt>) -> (r:
        Result<AssignedCell, Error>)
        requires
            old(self).wf(),
            value matches Some(f) ==> f.is_canonical(),
        ensures
            final(self).wf(),
            match old(self).spec_assign_advice_err(column, offset as int, value) {
                Some(e) => r == Err::<AssignedCell, Error>(e) && *final(self) == *old(self),
                None => {
                    let row = old(self).cursor + offset;
                    let v = value->Some_0;
                    &&& r == Ok::<AssignedCell, Error>(
                        AssignedCell { cell: (Cell { column, row: row as usize }), value: v },
                    )
                    &&& final(self).witness.advice_at(column.index as int, row as int) == Some(v)
                    &&& final(self).witness.advice@ == old(self).witness.advice@.update(
                        column.index as int,
                        final(self).witness.advice@[column.index as int],
                    )
                    &&& final(self).witness.advice@[column.index as int]@ == old(
                        self,
                    ).witness.advice@[column.index as int]@.update(row as int, Some(v))
                    &&& forall|c: int, rw: int|
                        0 <= c < old(self).cs.spec_num_advice() && 0 <= rw
                            < old(self).witness.n_rows && !(c == column.index && rw == row)
                            ==> #[trigger] final(self).witness.advice_at(c, rw) == old(
                            self,
                        ).witness.advice_at(c, rw)
                    &&& final(self).witness.fixed@ == old(self).witness.fixed@
                    &&& final(self).witness.selectors@ == old(self).witness.selectors@
                    &&& final(self).witness.n_rows == old(self).witness.n_rows
                    &&& final(self).cs == old(self).cs
                    &&& final(self).copies@ == old(self).copies@
                    &&& final(self).bindings@ == old(self).bindings@
                    &&& final(self).cursor == old(self).cursor
                    &&& final(self).in_region
                    &&& final(self).region_extent == if offset + 1 > old(self).region_extent {
                        offset + 1
                    } else {
                        old(self).region_extent as int
                    }
                },
            },
    {
        if !self.in_region {
            return Err(Error::Configuration(ConfigError::RegionMisuse));
        }
        let declared = column.kind == ColumnKind::Advice && column.index
            < self.cs.advice_equality.len();
        if !declared {
            return Err(Error::Configuration(ConfigError::UndeclaredColumn));
        }
        let v = match value {
            Some(v) => v,
            None => {
                return Err(Error::Synthesis(SynthesisError::MissingValue));
            },
        };
        if offset >= self.witness.n_rows - self.cursor {
            return Err(Error::Synthesis(SynthesisError::RowRangeExceeded));
        }
        let row = self.cursor + offset;
        if self.witness.advice[column.index][row].is_some() {
            return Err(Error::Synthesis(SynthesisError::CellAlreadyAssigned));
        }
        let col = &mut self.witness.advice[column.index];
        col.set(row, Some(v));
        if offset + 1 > self.region_extent {
            self.region_extent = offset + 1;
        }
        proof {
            assert forall|c: int|
                0 <= c < self.witness.advice@.len() implies (#[trigger] self.witness.advice@[c])@
                .len() == self.witness.n_rows by {
                if c != column.index {
                    assert(self.witness.advice@[c] == old(self).witness.advice@[c]);
                }
            }
            assert forall|c: int, rw: int|
                0 <= c < self.witness.advice@.len() && 0 <= rw < self.witness.n_rows && !(c
                    == column.index && rw == row) implies #[trigger] self.witness.advice_at(c, rw)
                == old(self).witness.advice_at(c, rw) by {
                if c != column.index {
                    assert(self.witness.advice@[c] == old(self).witness.advice@[c]);
                }
            }
            assert forall|c: int, rw: int|
                0 <= c < self.witness.advice@.len() && 0 <= rw < self.witness.n_rows implies
                opt_canonical(#[trigger] self.witness.advice_at(c, rw)) by {
                if c == column.index && rw == row {
                } else {
                    assert(opt_canonical(old(self).witness.advice_at(c, rw)));
                    assert(self.witness.advice_at(c, rw) == old(self).witness.advice_at(c, rw));
                }
            }
            assert forall|c: int|
                0 <= c < self.witness.fixed@.len() implies (#[trigger] self.witness.fixed@[c])@
                .len() == self.witness.n_rows by {
                assert(self.witness.fixed@[c] == old(self).witness.fixed@[c]);
            }
            assert forall|c: int, rw: int|
                0 <= c < self.witness.fixed@.len() && 0 <= rw < self.witness.n_rows implies
                opt_canonical(#[trigger] self.witness.fixed_at(c, rw)) by {
                assert(self.witness.fixed_at(c, rw) == old(self).witness.fixed_at(c, rw));
                assert(opt_canonical(old(self).witness.fixed_at(c, rw)));
            }
            assert forall|s: int|
                0 <= s < self.witness.selectors@.len() implies (
                #[trigger] self.witness.selectors@[s])@.len() == self.witness.n_rows by {
                assert(self.witness.selectors@[s] == old(self).witness.selectors@[s]);
            }
            assert forall|c: int, r: int|
                0 <= c < self.witness.advice@.len() && self.cursor + self.region_extent <= r
                    < self.witness.n_rows implies #[trigger] self.witness.advice_at(c, r)
                is None by {
                assert(self.witness.advice_at(c, r) == old(self).witness.advice_at(c, r));
                assert(old(self).witness.advice_at(c, r) is None);
            }
            assert forall|s: int, r: int|
                0 <= s < self.witness.selectors@.len() && self.cursor + self.region_extent <= r
                    < self.witness.n_rows implies !(#[trigger] self.witness.sel_on(s, r)) by {
                assert(self.witness.selectors@[s] == old(self).witness.selectors@[s]);
                assert(!old(self).witness.sel_on(s, r));
            }
        }
        Ok(AssignedCell { cell: Cell { column, row }, value: v })
    }

    /// The first error `assign_fixed` runs into, if any.
    pub open spec fn spec_assign_fixed_err(
        self,
        column: Column,
        offset: int,
        value: Option<Felt>,
    ) -> Option<Error> {
        if !self.in_region {
            Some(Error::Configuration(ConfigError::RegionMisuse))
        } else if !(column.kind == ColumnKind::Fixed && self.cs.column_declared(column)) {
            Some(Error::Configuration(ConfigError::UndeclaredColumn))
        } else if value is None {
            Some(Error::Synthesis(SynthesisError::MissingValue))
        } else if self.cursor + offset >= self.witness.n_rows {
            Some(Error::Synthesis(SynthesisError::RowRangeExceeded))
        } else if self.witness.fixed_at(column.index as int, self.cursor + offset) is Some {
            Some(Error::Synthesis(SynthesisError::CellAlreadyAssigned))
        } else {
            None
        }
    }

    /// Assigns a constant to a fixed cell of the open region, addressed by
    /// its 0-based row within the region; part of the circuit shape rather
    /// than the private witness, but stored and checked the same way.
    pub fn assign_fixed(&mut self, column: Column, offset: usize, value: Option<Felt>) -> (r:
        Result<AssignedCell, Error>)
        requires
            old(self).wf(),
            value matches Some(f) ==> f.is_canonical(),
        ensures
            final(self).wf(),
            match old(self).spec_assign_fixed_err(column, offset as int, value) {
                Some(e) => r == Err::<AssignedCell, Error>(e) && *final(self) == *old(self),
                None => {
                    let row = old(self).cursor + offset;
                    let v = value->Some_0;
                    &&& r == Ok::<AssignedCell, Error>(
                        AssignedCell { cell: (Cell { column, row: row as usize }), value: v },
                    )
                    &&& final(self).witness.fixed_at(column.index as int, row as int) == Some(v)
                    &&& forall|c: int, rw: int|
                        0 <= c < old(self).cs.spec_num_fixed() && 0 <= rw
                            < old(self).witness.n_rows && !(c == column.index && rw == row)
                            ==> #[trigger] final(self).witness.fixed_at(c, rw) == old(
                            self,
                        ).witness.fixed_at(c, rw)
                    &&& final(self).witness.advice@ == old(self).witness.advice@
                    &&& final(self).witness.selectors@ == old(self).witness.selectors@
                    &&& final(self).witness.n_rows == old(self).witness.n_rows
                    &&& final(self).cs == old(self).cs
                    &&& final(self).copies@ == old(self).copies@
                    &&& final(self).bindings@ == old(self).bindings@
                    &&& final(self).cursor == old(self).cursor
                    &&& final(self).in_region
                    &&& final(self).region_extent == if offset + 1 > old(self).region_extent {
                        offset + 1
                    } else {
                        old(self).region_extent as int
                    }
                },
            },
    {
        if !self.in_region {
            return Err(Error::Configuration(ConfigError::RegionMisuse));
        }
        let declared = column.kind == ColumnKind::Fixed && column.index
            < self.cs.fixed_equality.len();
        if !declared {
            return Err(Error::Configuration(ConfigError::UndeclaredColumn));
        }
        let v = match value {
            Some(v) => v,
            None => {
                return Err(Error::Synthesis(SynthesisError::MissingValue));
            },
        };
        if offset >= self.witness.n_rows - self.cursor {
            return Err(Error::Synthesis(SynthesisError::RowRangeExceeded));
        }
        let row = self.cursor + offset;
        if self.witness.fixed[column.index][row].is_some() {
            return Err(Error::Synthesis(SynthesisError::CellAlreadyAssigned));
        }
        let col = &mut self.witness.fixed[column.index];
        col.set(row, Some(v));
        if offset + 1 > self.region_extent {
            self.region_extent = offset + 1;
        }
        proof {
            assert forall|c: int|
                0 <= c < self.witness.fixed@.len() implies (#[trigger] self.witness.fixed@[c])@
                .len() == self.witness.n_rows by {
                if c != column.index {
                    assert(self.witness.fixed@[c] == old(self).witness.fixed@[c]);
                }
            }
            assert forall|c: int, rw: int|
                0 <= c < self.witness.fixed@.len() && 0 <= rw < self.witness.n_rows && !(c
                    == column.index && rw == row) implies #[trigger] self.witness.fixed_at(c, rw)
                == old(self).witness.fixed_at(c, rw) by {
                if c != column.index {
                    assert(self.witness.fixed@[c] == old(self).witness.fixed@[c]);
                }
            }
            assert forall|c: int, rw: int|
                0 <= c < self.witness.fixed@.len() && 0 <= rw < self.witness.n_rows implies
                opt_canonical(#[trigger] self.witness.fixed_at(c, rw)) by {
                if c == column.index && rw == row {
                } else {
                    assert(opt_canonical(old(self).witness.fixed_at(c, rw)));
                    assert(self.witness.fixed_at(c, rw) == old(self).witness.fixed_at(c, rw));
                }
            }
            assert forall|c: int|
                0 <= c < self.witness.advice@.len() implies (#[trigger] self.witness.advice@[c])@
                .len() == self.witness.n_rows by {
                assert(self.witness.advice@[c] == old(self).witness.advice@[c]);
            }
            assert forall|c: int, rw: int|
                0 <= c < self.witness.advice@.len() && 0 <= rw < self.witness.n_rows implies
                opt_canonical(#[trigger] self.witness.advice_at(c, rw)) by {
                assert(self.witness.advice_at(c, rw) == old(self).witness.advice_at(c, rw));
                assert(opt_canonical(old(self).witness.advice_at(c, rw)));
            }
            assert forall|s: int|
                0 <= s < self.witness.selectors@.len() implies (
                #[trigger] self.witness.selectors@[s])@.len() == self.witness.n_rows by {
                assert(self.witness.selectors@[s] == old(self).witness.selectors@[s]);
            }
            assert forall|c: int, r: int|
                0 <= c < self.witness.advice@.len() && self.cursor + self.region_extent <= r
                    < self.witness.n_rows implies #[trigger] self.witness.advice_at(c, r)
                is None by {
                assert(self.witness.advice@[c] == old(self).witness.advice@[c]);
                assert(old(self).witness.advice_at(c, r) is None);
            }
            assert forall|s: int, r: int|
                0 <= s < self.witness.selectors@.len() && self.cursor + self.region_extent <= r
                    < self.witness.n_rows implies !(#[trigger] self.witness.sel_on(s, r)) by {
                assert(self.witness.selectors@[s] == old(self).witness.selectors@[s]);
                assert(!old(self).witness.sel_on(s, r));
            }
        }
        Ok(AssignedCell { cell: Cell { column, row }, value: v })
    }

    /// The first error `enable_selector` runs into, if any.
    pub open spec fn spec_enable_selector_err(self, selector: Selector, offset: int) -> Option<
        Error,
    > {
        if !self.in_region {
            Some(Error::Configuration(ConfigError::RegionMisuse))
        } else if !(selector.index < self.cs.num_selectors) {
            Some(Error::Configuration(ConfigError::UndeclaredSelector))
        } else if self.cursor + offset >= self.witness.n_rows {
            Some(Error::Synthesis(SynthesisError::RowRangeExceeded))
        } else {
            None
        }
    }

    /// Turns a selector on at a row of the open region.
    pub fn enable_selector(&mut self, selector: Selector, offset: usize) -> (r: Result<(), Error>)
        requires
            old(self).wf(),
        ensures
            final(self).wf(),
            match old(self).spec_enable_selector_err(selector, offset as int) {
                Some(e) => r == Err::<(), Error>(e) && *final(self) == *old(self),
                None => {
                    let row = old(self).cursor + offset;
                    &&& r is Ok
                    &&& final(self).witness.sel_on(selector.index as int, row as int)
                    &&& final(self).witness.selectors@ == old(self).witness.selectors@.update(
                        selector.index as int,
                        final(self).witness.selectors@[selector.index as int],
                    )
                    &&& final(self).witness.selectors@[selector.index as int]@ == old(
                        self,
                    ).witness.selectors@[selector.index as int]@.update(row as int, true)
                    &&& forall|s: int, rw: int|
                        0 <= s < old(self).cs.num_selectors && 0 <= rw < old(self).witness.n_rows
                            && !(s == selector.index && rw == row)
                            ==> #[trigger] final(self).witness.sel_on(s, rw) == old(
                            self,
                        ).witness.sel_on(s, rw)
                    &&& final(self).witness.advice@ == old(self).witness.advice@
                    &&& final(self).witness.fixed@ == old(self).witness.fixed@
                    &&& final(self).witness.n_rows == old(self).witness.n_rows
                    &&& final(self).cs == old(self).cs
                    &&& final(self).copies@ == old(self).copies@
                    &&& final(self).bindings@ == old(self).bindings@
                    &&& final(self).cursor == old(self).cursor
                    &&& final(self).in_region
                    &&& final(self).region_extent == if offset + 1 > old(self).region_extent {
                        offset + 1
                    } else {
                        old(self).region_extent as int
                    }
                },
            },
    {
        if !self.in_region {
            return Err(Error::Configuration(ConfigError::RegionMisuse));
        }
        if selector.index >= self.cs.num_selectors {
            return Err(Error::Configuration(ConfigError::UndeclaredSelector));
        }
        if offset >= self.witness.n_rows - self.cursor {
            return Err(Error::Synthesis(SynthesisError::RowRangeExceeded));
        }
        let row = self.cursor + offset;
        let col = &mut self.witness.selectors[selector.index];
        col.set(row, true);
        if offset + 1 > self.region_extent {
            self.region_extent = offset + 1;
        }
        proof {
            assert forall|s: int|
                0 <= s < self.witness.selectors@.len() implies (
                #[trigger] self.witness.selectors@[s])@.len() == self.witness.n_rows by {
                if s != selector.index {
                    assert(self.witness.selectors@[s] == old(self).witness.selectors@[s]);
                }
            }
            assert forall|s: int, rw: int|
                0 <= s < self.witness.selectors@.len() && 0 <= rw < self.witness.n_rows && !(s
                    == selector.index && rw == row) implies #[trigger] self.witness.sel_on(s, rw)
                == old(self).witness.sel_on(s, rw) by {
                if s != selector.index {
                    assert(self.witness.selectors@[s] == old(self).witness.selectors@[s]);
                }
            }
            assert forall|c: int|
                0 <= c < self.witness.advice@.len() implies (#[trigger] self.witness.advice@[c])@
                .len() == self.witness.n_rows by {
                assert(self.witness.advice@[c] == old(self).witness.advice@[c]);
            }
            assert forall|c: int, rw: int|
                0 <= c < self.witness.advice@.len() && 0 <= rw < self.witness.n_rows implies
                opt_canonical(#[trigger] self.witness.advice_at(c, rw)) by {
                assert(self.witness.advice_at(c, rw) == old(self).witness.advice_at(c, rw));
                assert(opt_canonical(old(self).witness.advice_at(c, rw)));
            }
            assert forall|c: int|
                0 <= c < self.witness.fixed@.len() implies (#[trigger] self.witness.fixed@[c])@
                .len() == self.witness.n_rows by {
                assert(self.witness.fixed@[c] == old(self).witness.fixed@[c]);
            }
            assert forall|c: int, rw: int|
                0 <= c < self.witness.fixed@.len() && 0 <= rw < self.witness.n_rows implies
                opt_canonical(#[trigger] self.witness.fixed_at(c, rw)) by {
                assert(self.witness.fixed_at(c, rw) == old(self).witness.fixed_at(c, rw));
                assert(opt_canonical(old(self).witness.fixed_at(c, rw)));
            }
            assert forall|c: int, r: int|
                0 <= c < self.witness.advice@.len() && self.cursor + self.region_extent <= r
                    < self.witness.n_rows implies #[trigger] self.witness.advice_at(c, r)
                is None by {
                assert(self.witness.advice@[c] == old(self).witness.advice@[c]);
                assert(old(self).witness.advice_at(c, r) is None);
            }
            assert forall|s: int, r: int|
                0 <= s < self.witness.selectors@.len() && self.cursor + self.region_extent <= r
                    < self.witness.n_rows implies !(#[trigger] self.witness.sel_on(s, r)) by {
                assert(self.witness.sel_on(s, r) == old(self).witness.sel_on(s, r));
                assert(!old(self).witness.sel_on(s, r));
            }
        }
        Ok(())
    }

    /// Records a copy constraint: the witness values of the two cells must be
    /// equal. Both columns must be equality-enabled. Constraints may cross
    /// regions freely.
    pub fn constrain_equal(&mut self, left: Cell, right: Cell) -> (r: Result<(), Error>)
        requires
            old(self).wf(),
        ensures
            final(self).wf(),
            r is Ok <==> (old(self).cs.spec_equality_enabled(left.column) && old(
                self,
            ).cs.spec_equality_enabled(right.column) && left.row < old(self).witness.n_rows
                && right.row < old(self).witness.n_rows),
            r is Ok ==> *final(self) == (Layouter {
                copies: final(self).copies,
                ..*old(self)
            }) && final(self).copies@ == old(self).copies@.push((left, right)),
            r is Err ==> *final(self) == *old(self),
            r is Err ==> (r == Err::<(), Error>(Error::Configuration(ConfigError::EqualityNotEnabled))
                || r == Err::<(), Error>(Error::Synthesis(SynthesisError::RowRangeExceeded))),
    {
        if !self.equality_enabled(left.column) || !self.equality_enabled(right.column) {
            return Err(Error::Configuration(ConfigError::EqualityNotEnabled));
        }
        if left.row >= self.witness.n_rows || right.row >= self.witness.n_rows {
            return Err(Error::Synthesis(SynthesisError::RowRangeExceeded));
        }
        self.copies.push((left, right));
        Ok(())
    }

    /// Records a public-input binding: the witness value of `cell` must equal
    /// the public input supplied for `column` at position `index`.
    pub fn constrain_instance(&mut self, cell: Cell, column: Column, index: usize) -> (r: Result<
        (),
        Error,
    >)
        requires
            old(self).wf(),
        ensures
            final(self).wf(),
            r is Ok <==> (old(self).cs.column_declared(cell.column) && cell.row < old(
                self,
            ).witness.n_rows && column.kind == ColumnKind::Instance && old(
                self,
            ).cs.column_declared(column)),
            r is Ok ==> *final(self) == (Layouter {
                bindings: final(self).bindings,
                ..*old(self)
            }) && final(self).bindings@ == old(self).bindings@.push(
                InstanceBinding { cell, column, index },
            ),
            r is Err ==> *final(self) == *old(self),
            r is Err ==> (r == Err::<(), Error>(Error::Configuration(ConfigError::UndeclaredColumn))
                || r == Err::<(), Error>(Error::Synthesis(SynthesisError::RowRangeExceeded))),
    {
        let cell_ok = match cell.column.kind {
            ColumnKind::Advice => cell.column.index < self.cs.advice_equality.len(),
            ColumnKind::Instance => cell.column.index < self.cs.instance_equality.len(),
            ColumnKind::Fixed => cell.column.index < self.cs.fixed_equality.len(),
        };
        if !cell_ok || !(column.kind == ColumnKind::Instance && column.index
            < self.cs.instance_equality.len()) {
            return Err(Error::Configuration(ConfigError::UndeclaredColumn));
        }
        if cell.row >= self.witness.n_rows {
            return Err(Error::Synthesis(SynthesisError::RowRangeExceeded));
        }
        self.bindings.push(InstanceBinding { cell, column, index });
        Ok(())
    }

    /// If gate `gi`'s selector is on at relative row `rel` of the open
    /// region, every rotation that gate queries from there stays within the
    /// rows the region touched.
    pub open spec fn gate_region_ok(self, gi: int, rel: int) -> bool {
        let g = self.cs.gates@[gi];
        self.witness.sel_on(g.selector.index as int, self.cursor + rel) ==> {
            &&& 0 <= rel + g.poly.min_rotation()
            &&& rel + g.poly.max_rotation() < self.region_extent
        }
    }

    /// Every gate enabled inside the open region keeps its rotations within
    /// the region's rows.
    pub open spec fn spec_region_rotations_ok(self) -> bool {
        forall|gi: int, rel: int|
            0 <= gi < self.cs.gates@.len() && 0 <= rel < self.region_extent
                ==> #[trigger] self.gate_region_ok(gi, rel)
    }

    /// Closes the open region and advances the cursor past its rows. Fails --
    /// leaving the layouter untouched -- if a selector was enabled at a row
    /// from which one of its gates' rotations reaches outside the region, so
    /// that no gate ever silently reads a cell its region never touched.
    #[verifier::loop_isolation(false)]
    pub fn exit_region(&mut self) -> (r: Result<(), Error>)
        requires
            old(self).wf(),
        ensures
            final(self).wf(),
            r is Ok <==> (old(self).in_region && old(self).spec_region_rotations_ok()),
            !old(self).in_region ==> r == Err::<(), Error>(
                Error::Configuration(ConfigError::RegionMisuse),
            ) && *final(self) == *old(self),
            old(self).in_region && !old(self).spec_region_rotations_ok() ==> r == Err::<(), Error>(
                Error::Synthesis(SynthesisError::RotationOutOfRange),
            ) && *final(self) == *old(self),
            r is Ok ==> *final(self) == (Layouter {
                cursor: (old(self).cursor + old(self).region_extent) as usize,
                in_region: false,
                region_extent: 0,
                ..*old(self)
            }),
    {
        if !self.in_region {
            return Err(Error::Configuration(ConfigError::RegionMisuse));
        }
        let mut gi: usize = 0;
        while gi < self.cs.gates.len()
            invariant
                gi <= self.cs.gates@.len(),
                forall|g: int, rel: int|
                    0 <= g < gi && 0 <= rel < self.region_extent
                        ==> #[trigger] self.gate_region_ok(g, rel),
            decreases self.cs.gates@.len() - gi,
        {
            let minr = self.cs.gates[gi].poly.compute_min_rotation();
            let maxr = self.cs.gates[gi].poly.compute_max_rotation();
            let sel = self.cs.gates[gi].selector;
            assert(self.cs.wf_gate_at(gi as int));
            let mut rel: usize = 0;
            while rel < self.region_extent
                invariant
                    rel <= self.region_extent,
                    forall|q: int|
                        0 <= q < rel ==> #[trigger] self.gate_region_ok(gi as int, q),
                decreases self.region_extent - rel,
            {
                if self.witness.selectors[sel.index][self.cursor + rel] {
                    let lo = rel as i64 + minr as i64;
                    let hi = rel as i64 + maxr as i64;
                    if lo < 0 || hi >= self.region_extent as i64 {
                        assert(!self.gate_region_ok(gi as int, rel as int));
                        return Err(Error::Synthesis(SynthesisError::RotationOutOfRange));
                    }
                }
                rel = rel + 1;
            }
            gi = gi + 1;
        }
        self.cursor = self.cursor + self.region_extent;
        self.region_extent = 0;
        self.in_region = false;
        Ok(())
    }

    /// Ends synthesis: hands the now read-only witness store, the copy
    /// constraints and the public-input bindings to the checker.
    pub fn freeze(self) -> (r: Frozen)
        requires
            self.wf(),
            !self.in_region,
        ensures
            r == (Frozen {
                cs: self.cs,
                witness: self.witness,
                copies: self.copies,
                bindings: self.bindings,
            }),
            r.wf(),
    {
        Frozen { cs: self.cs, witness: self.witness, copies: self.copies, bindings: self.bindings }
    }

    /// Whether the column is declared and equality-enabled.
    fn equality_enabled(&self, column: Column) -> (r: bool)
        ensures
            r == self.cs.spec_equality_enabled(column),
    {
        match column.kind {
            ColumnKind::Advice => column.index < self.cs.advice_equality.len()
                && self.cs.advice_equality[column.index],
            ColumnKind::Instance => column.index < self.cs.instance_equality.len()
                && self.cs.instance_equality[column.index],
            ColumnKind::Fixed => column.index < self.cs.fixed_equality.len()
                && self.cs.fixed_equality[column.index],
        }
    }
}

} // verus!
