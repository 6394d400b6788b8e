//! The three-column Fibonacci circuit: advice columns a, b, c, one instance
//! column and one selector gating the add gate `a + b - c = 0` at rotation 0.
//! Each region occupies one row computing `c = a + b`; the circuit chains rows
//! by re-supplying the previous row's b and c as the next row's a and b, and
//! binds the final c to public input 0.

use vstd::prelude::*;

use crate::checker::{
    bindings_ok, cell_value, check, check_spec, classes_ok, copy_classes, eval_expr_spec,
    gate_ok_at, gates_ok, pairs_ok, pubs_canonical, spec_satisfied, CheckOutcome, OutcomeV,
};
use crate::field::{f_add, fib_chain, Felt};
use crate::layout::{AssignedCell, Frozen, Layouter};
use crate::system::{Cell, Column, ColumnKind, ConfigError, ConstraintSystem, Error, Expr,
    Selector, SynthesisError};

verus! {

broadcast use vstd::string::to_string_from_display_ensures_for_str;

/// The polynomial of the add gate: `a + b - c`, all at the current row.
pub open spec fn is_add_gate_poly(e: Expr, a: Column, b: Column, c: Column) -> bool {
    &&& e matches Expr::Diff(sum, qc)
    &&& *sum matches Expr::Sum(qa, qb)
    &&& *qa == (Expr::Query { column: a, rotation: 0 })
    &&& *qb == (Expr::Query { column: b, rotation: 0 })
    &&& *qc == (Expr::Query { column: c, rotation: 0 })
}

/// The chip's configuration: which columns and selector it works on.
#[derive(Clone, Copy, PartialEq, Eq, Structural, Debug)]
pub struct FiboConfig {
    pub col_a: Column,
    pub col_b: Column,
    pub col_c: Column,
    pub instance: Column,
    pub selector: Selector,
}

impl FiboConfig {
    /// The configuration addresses three distinct declared advice columns, a
    /// declared instance column and a declared selector, and every gate on
    /// that selector reads the current row only.
    pub open spec fn matches(self, cs: ConstraintSystem) -> bool {
        &&& self.col_a.kind == ColumnKind::Advice && cs.column_declared(self.col_a)
        &&& self.col_b.kind == ColumnKind::Advice && cs.column_declared(self.col_b)
        &&& self.col_c.kind == ColumnKind::Advice && cs.column_declared(self.col_c)
        &&& self.col_a.index != self.col_b.index
        &&& self.col_a.index != self.col_c.index
        &&& self.col_b.index != self.col_c.index
        &&& self.instance.kind == ColumnKind::Instance && cs.column_declared(self.instance)
        &&& self.selector.index < cs.num_selectors
        &&& forall|gi: int|
            0 <= gi < cs.gates@.len() && (#[trigger] cs.gates@[gi]).selector == self.selector
                ==> cs.gates@[gi].poly.min_rotation() >= 0 && cs.gates@[gi].poly.max_rotation()
                <= 0
    }
}

/// The chip: drives the layouter to build the three-column recurrence.
pub struct FiboChip {
    pub config: FiboConfig,
}

impl FiboChip {
    pub fn construct(config: FiboConfig) -> (r: FiboChip)
        ensures
            r.config == config,
    {
        FiboChip { config }
    }

    /// Declares the selector, equality-enables the four columns and creates
    /// the add gate.
    pub fn configure(
        meta: &mut ConstraintSystem,
        col_a: Column,
        col_b: Column,
        col_c: Column,
        instance: Column,
    ) -> (r: Result<FiboConfig, Error>)
        requires
            old(meta).wf(),
            old(meta).num_selectors < usize::MAX,
        ensures
            final(meta).wf(),
            r is Ok <==> (old(meta).column_declared(col_a) && old(meta).column_declared(col_b)
                && old(meta).column_declared(col_c) && old(meta).column_declared(instance)),
            r matches Ok(config) ==> {
                &&& config == (FiboConfig {
                    col_a,
                    col_b,
                    col_c,
                    instance,
                    selector: (Selector { index: old(meta).num_selectors }),
                })
                &&& final(meta).gates@.len() == old(meta).gates@.len() + 1
                &&& final(meta).gates@.last().selector == config.selector
                &&& final(meta).gates@.last().name@ == "add"@
                &&& is_add_gate_poly(final(meta).gates@.last().poly, col_a, col_b, col_c)
                &&& final(meta).gates@.subrange(0, old(meta).gates@.len() as int) == old(
                    meta,
                ).gates@
                &&& final(meta).num_selectors == old(meta).num_selectors + 1
                &&& final(meta).spec_num_advice() == old(meta).spec_num_advice()
                &&& final(meta).spec_num_instance() == old(meta).spec_num_instance()
                &&& final(meta).spec_num_fixed() == old(meta).spec_num_fixed()
                &&& final(meta).spec_equality_enabled(col_a)
                &&& final(meta).spec_equality_enabled(col_b)
                &&& final(meta).spec_equality_enabled(col_c)
                &&& final(meta).spec_equality_enabled(instance)
            },
            r is Err ==> final(meta).gates@ == old(meta).gates@ && r == Err::<FiboConfig, Error>(
                Error::Configuration(ConfigError::UndeclaredColumn),
            ),
    {
        let selector = meta.declare_selector();
        meta.enable_equality(col_a)?;
        meta.enable_equality(col_b)?;
        meta.enable_equality(col_c)?;
        meta.enable_equality(instance)?;
        let poly = Expr::Diff(
            Box::new(
                Expr::Sum(
                    Box::new(Expr::Query { column: col_a, rotation: 0 }),
                    Box::new(Expr::Query { column: col_b, rotation: 0 }),
                ),
            ),
            Box::new(Expr::Query { column: col_c, rotation: 0 }),
        );
        proof {
            assert(poly.wf(
                meta.spec_num_advice(),
                meta.spec_num_instance(),
                meta.spec_num_fixed(),
            )) by {
                reveal_with_fuel(Expr::wf, 4);
            }
        }
        meta.create_gate("add".to_string(), selector, poly)?;
        Ok(FiboConfig { col_a, col_b, col_c, instance, selector })
    }

    /// One region of one row: assigns a = prev_b, b = prev_c and c = a + b
    /// with the add gate enabled, and returns the handle to c. Fails -- as a
    /// missing-value synthesis error -- when an input is not known, and when
    /// no row is left.
    #[verifier::rlimit(60)]
    pub fn assign_row(
        &self,
        layouter: &mut Layouter,
        prev_b: Option<Felt>,
        prev_c: Option<Felt>,
    ) -> (r: Result<AssignedCell, Error>)
        requires
            old(layouter).wf(),
            !old(layouter).in_region,
            self.config.matches(old(layouter).cs),
            prev_b matches Some(f) ==> f.is_canonical(),
            prev_c matches Some(f) ==> f.is_canonical(),
        ensures
            final(layouter).wf(),
            final(layouter).cs == old(layouter).cs,
            final(layouter).witness.n_rows == old(layouter).witness.n_rows,
            r is Ok <==> (prev_b is Some && prev_c is Some && old(layouter).cursor + 1 <= old(
                layouter,
            ).witness.n_rows),
            old(layouter).cursor + 1 > old(layouter).witness.n_rows ==> r == Err::<
                AssignedCell,
                Error,
            >(Error::Synthesis(SynthesisError::RowRangeExceeded)),
            old(layouter).cursor + 1 <= old(layouter).witness.n_rows && (prev_b is None
                || prev_c is None) ==> r == Err::<AssignedCell, Error>(
                Error::Synthesis(SynthesisError::MissingValue),
            ),
            r matches Ok(cell) ==> {
                let row = old(layouter).cursor as int;
                let vb = prev_b->Some_0;
                let vc = prev_c->Some_0;
                &&& !final(layouter).in_region
                &&& final(layouter).cursor == old(layouter).cursor + 1
                &&& final(layouter).copies@ == old(layouter).copies@
                &&& final(layouter).bindings@ == old(layouter).bindings@
                &&& cell.cell.column == self.config.col_c
                &&& cell.cell.row == row
                &&& cell.value.val() == f_add(vb.val() as int, vc.val() as int)
                &&& cell.value.is_canonical()
                &&& final(layouter).witness.advice_at(self.config.col_a.index as int, row)
                    == Some(vb)
                &&& final(layouter).witness.advice_at(self.config.col_b.index as int, row)
                    == Some(vc)
                &&& final(layouter).witness.advice_at(self.config.col_c.index as int, row)
                    == Some(cell.value)
                &&& final(layouter).witness.sel_on(self.config.selector.index as int, row)
                &&& final(layouter).witness.fixed@ == old(layouter).witness.fixed@
                &&& forall|c: int, rw: int|
                    0 <= c < old(layouter).cs.spec_num_advice()
                        && 0 <= rw < old(layouter).witness.n_rows && !(rw == row && (c
                        == self.config.col_a.index || c == self.config.col_b.index || c
                        == self.config.col_c.index))
                        ==> #[trigger] final(layouter).witness.advice_at(c, rw)
                            == old(layouter).witness.advice_at(c, rw)
                &&& forall|s: int, rw: int|
                    0 <= s < old(layouter).cs.num_selectors
                        && 0 <= rw < old(layouter).witness.n_rows
                        && !(s == self.config.selector.index && rw == row)
                        ==> #[trigger] final(layouter).witness.sel_on(s, rw)
                            == old(layouter).witness.sel_on(s, rw)
            },
    {
        let ghost ci_a = self.config.col_a.index as int;
        let ghost ci_b = self.config.col_b.index as int;
        let ghost ci_c = self.config.col_c.index as int;
        let ghost row = old(layouter).cursor as int;
        layouter.enter_region("row")?;
        layouter.enable_selector(self.config.selector, 0)?;
        proof {
            assert(old(layouter).witness.advice_at(ci_a, row) is None);
            assert(old(layouter).witness.advice_at(ci_b, row) is None);
            assert(old(layouter).witness.advice_at(ci_c, row) is None);
            assert(layouter.witness.advice_at(ci_a, row) is None);
            assert(layouter.witness.advice_at(ci_b, row) is None);
            assert(layouter.witness.advice_at(ci_c, row) is None);
        }
        let c_val = match (prev_b, prev_c) {
            (Some(x), Some(y)) => Some(x.add(y)),
            _ => None,
        };
        layouter.assign_advice(self.config.col_a, 0, prev_b)?;
        proof {
            assert(layouter.witness.advice_at(ci_b, row) is None);
            assert(layouter.witness.advice_at(ci_c, row) is None);
        }
        layouter.assign_advice(self.config.col_b, 0, prev_c)?;
        proof {
            assert(layouter.witness.advice_at(ci_c, row) is None);
        }
        let c_cell = layouter.assign_advice(self.config.col_c, 0, c_val)?;
        proof {
            assert(layouter.region_extent == 1);
            assert forall|gi: int, rel: int|
                0 <= gi < layouter.cs.gates@.len() && 0 <= rel < layouter.region_extent implies
                #[trigger] layouter.gate_region_ok(gi, rel) by {
                let g = layouter.cs.gates@[gi];
                assert(layouter.cs.wf_gate_at(gi));
                assert(rel == 0);
                if layouter.witness.sel_on(g.selector.index as int, layouter.cursor + rel) {
                    if g.selector.index != self.config.selector.index {
                        assert(layouter.witness.selectors@[g.selector.index as int]
                            == old(layouter).witness.selectors@[g.selector.index as int]);
                        assert(!old(layouter).witness.sel_on(g.selector.index as int, row));
                        assert(false);
                    }
                    assert(g.selector == self.config.selector);
                }
            }
            assert(layouter.spec_region_rotations_ok());
        }
        let out = layouter.exit_region();
        match out {
            Ok(_) => Ok(c_cell),
            Err(e) => Err(e),
        }
    }

    /// Binds an assigned cell to public input `row` of the instance column.
    pub fn expose_public(
        &self,
        layouter: &mut Layouter,
        cell: &AssignedCell,
        row: usize,
    ) -> (r: Result<(), Error>)
        requires
            old(layouter).wf(),
            self.config.matches(old(layouter).cs),
            old(layouter).cs.column_declared(cell.cell.column),
            cell.cell.row < old(layouter).witness.n_rows,
        ensures
            final(layouter).wf(),
            r is Ok,
            final(layouter).cs == old(layouter).cs,
            final(layouter).witness == old(layouter).witness,
            final(layouter).cursor == old(layouter).cursor,
            final(layouter).in_region == old(layouter).in_region,
            final(layouter).copies@ == old(layouter).copies@,
            final(layouter).bindings@ == old(layouter).bindings@.push(
                crate::layout::InstanceBinding {
                    cell: cell.cell,
                    column: self.config.instance,
                    index: row,
                },
            ),
    {
        layouter.constrain_instance(cell.cell, self.config.instance, row)
    }
}

/// The three-column Fibonacci circuit: two optional inputs (absent while
/// describing the bare shape), eight chained add rows, and the result bound
/// to public input 0.
pub struct MyCircuit {
    pub a: Option<Felt>,
    pub b: Option<Felt>,
}

impl MyCircuit {
    /// A copy of the circuit with the witness stripped, for shape-only passes.
    pub fn without_witnesses(&self) -> (r: MyCircuit)
        ensures
            r.a is None,
            r.b is None,
    {
        MyCircuit { a: None, b: None }
    }

    /// Declares the circuit's columns and hands them to the chip.
    pub fn configure(meta: &mut ConstraintSystem) -> (r: Result<FiboConfig, Error>)
        requires
            old(meta).wf(),
            old(meta).spec_num_advice() + 3 < usize::MAX,
            old(meta).spec_num_instance() < usize::MAX,
            old(meta).spec_num_fixed() < usize::MAX,
            old(meta).num_selectors < usize::MAX,
        ensures
            final(meta).wf(),
            r is Ok,
            r matches Ok(config) ==> {
                &&& config.matches(*final(meta))
                &&& final(meta).gates@.len() == old(meta).gates@.len() + 1
                &&& final(meta).gates@.last().selector == config.selector
                &&& final(meta).gates@.last().name@ == "add"@
                &&& is_add_gate_poly(
                    final(meta).gates@.last().poly,
                    config.col_a,
                    config.col_b,
                    config.col_c,
                )
                &&& config.instance.kind == ColumnKind::Instance
                &&& config.instance.index == old(meta).spec_num_instance()
                &&& final(meta).spec_num_advice() == old(meta).spec_num_advice() + 3
                &&& final(meta).spec_num_instance() == old(meta).spec_num_instance() + 1
                &&& final(meta).spec_num_fixed() == old(meta).spec_num_fixed()
                &&& final(meta).num_selectors == old(meta).num_selectors + 1
                &&& forall|gi: int|
                    0 <= gi < old(meta).gates@.len() ==> (#[trigger] final(meta).gates@[gi])
                        == old(meta).gates@[gi]
            },
    {
        let col_a = meta.declare_column(ColumnKind::Advice);
        let col_b = meta.declare_column(ColumnKind::Advice);
        let col_c = meta.declare_column(ColumnKind::Advice);
        let instance = meta.declare_column(ColumnKind::Instance);
        let r = FiboChip::configure(meta, col_a, col_b, col_c, instance);
        proof {
            match r {
                Ok(config) => {
                    assert(config.matches(*meta)) by {
                        reveal_with_fuel(Expr::min_rotation, 4);
                        reveal_with_fuel(Expr::max_rotation, 4);
                        assert forall|gi: int|
                            0 <= gi < meta.gates@.len() && (#[trigger] meta.gates@[gi]).selector
                                == config.selector implies meta.gates@[gi].poly.min_rotation()
                            >= 0 && meta.gates@[gi].poly.max_rotation() <= 0 by {
                            if gi < meta.gates@.len() - 1 {
                                assert(meta.gates@[gi] == old(meta).gates@[gi]);
                                assert(old(meta).wf_gate_at(gi));
                                assert(false);
                            }
                            assert(gi == meta.gates@.len() - 1);
                        }
                    }
                },
                Err(_) => {},
            }
        }
        r
    }

    /// Lays the whole circuit out: eight chained add rows computing the
    /// recurrence from the two inputs, then binds the final c to public
    /// input 0. Succeeds exactly when both inputs are known and eight rows
    /// are left, leaving behind exactly the state `synthesized` describes.
    pub fn synthesize(&self, config: FiboConfig, layouter: &mut Layouter) -> (r: Result<
        (),
        Error,
    >)
        requires
            old(layouter).wf(),
            !old(layouter).in_region,
            config.matches(old(layouter).cs),
            self.a matches Some(f) ==> f.is_canonical(),
            self.b matches Some(f) ==> f.is_canonical(),
        ensures
            final(layouter).wf(),
            final(layouter).cs == old(layouter).cs,
            final(layouter).witness.n_rows == old(layouter).witness.n_rows,
            r is Ok <==> (self.a is Some && self.b is Some && old(layouter).cursor + 8 <= old(
                layouter,
            ).witness.n_rows),
            old(layouter).cursor + 1 <= old(layouter).witness.n_rows && (self.a is None
                || self.b is None) ==> r == Err::<(), Error>(
                Error::Synthesis(SynthesisError::MissingValue),
            ),
            r is Err && self.a is Some && self.b is Some ==> r == Err::<(), Error>(
                Error::Synthesis(SynthesisError::RowRangeExceeded),
            ),
            r is Ok ==> synthesized(
                config,
                *old(layouter),
                *final(layouter),
                self.a->Some_0.val() as int,
                self.b->Some_0.val() as int,
            ),
    {
        let ghost start = old(layouter).cursor as int;
        let ghost a0 = if self.a is Some {
            self.a->Some_0.val() as int
        } else {
            0int
        };
        let ghost b0 = if self.b is Some {
            self.b->Some_0.val() as int
        } else {
            0int
        };
        let chip = FiboChip::construct(config);
        let mut prev_b = self.a;
        let mut prev_c = self.b;
        layouter.namespace("first row");
        let mut c_cell = chip.assign_row(layouter, prev_b, prev_c)?;
        proof {
            assert(fib_chain(a0, b0, 0) == a0);
            assert(fib_chain(a0, b0, 1) == b0);
            assert(fib_chain(a0, b0, 2) == f_add(a0, b0));
            assert(row_holds_chain(config, layouter.witness, start, a0, b0, 0));
        }
        let mut i: usize = 3;
        while i < 10
            invariant
                3 <= i <= 10,
                layouter.wf(),
                !layouter.in_region,
                layouter.cs == old(layouter).cs,
                config.matches(layouter.cs),
                chip.config == config,
                layouter.witness.n_rows == old(layouter).witness.n_rows,
                layouter.cursor == old(layouter).cursor + (i - 2),
                start == old(layouter).cursor as int,
                self.a is Some && self.b is Some,
                a0 == self.a->Some_0.val() as int,
                b0 == self.b->Some_0.val() as int,
                prev_c is Some,
                prev_c matches Some(f) ==> f.is_canonical(),
                prev_c->Some_0.val() == fib_chain(a0, b0, i - 2),
                c_cell.value.is_canonical(),
                c_cell.value.val() == fib_chain(a0, b0, i - 1),
                c_cell.cell.column == config.col_c,
                c_cell.cell.row == start + i - 3,
                c_cell.cell.row < layouter.witness.n_rows,
                layouter.copies@ == old(layouter).copies@,
                layouter.bindings@ == old(layouter).bindings@,
                layouter.witness.fixed@ == old(layouter).witness.fixed@,
                forall|rel: int|
                    0 <= rel < i - 2 ==> #[trigger] row_holds_chain(
                        config,
                        layouter.witness,
                        start,
                        a0,
                        b0,
                        rel,
                    ),
                forall|rel: int|
                    0 <= rel < i - 2 ==> #[trigger] layouter.witness.sel_on(
                        config.selector.index as int,
                        start + rel,
                    ),
                forall|c: int, rw: int|
                    0 <= c < old(layouter).cs.spec_num_advice() && 0 <= rw < old(
                        layouter,
                    ).witness.n_rows && !(start <= rw < start + (i - 2) && (c
                        == config.col_a.index || c == config.col_b.index || c
                        == config.col_c.index)) ==> #[trigger] layouter.witness.advice_at(c, rw)
                        == old(layouter).witness.advice_at(c, rw),
                forall|sx: int, rw: int|
                    0 <= sx < old(layouter).cs.num_selectors && 0 <= rw < old(
                        layouter,
                    ).witness.n_rows && !(sx == config.selector.index && start <= rw < start + (i
                        - 2)) ==> #[trigger] layouter.witness.sel_on(sx, rw) == old(
                        layouter,
                    ).witness.sel_on(sx, rw),
            decreases 10 - i,
        {
            let ghost w_head = layouter.witness;
            prev_b = prev_c;
            prev_c = Some(c_cell.value());
            layouter.namespace("next row");
            c_cell = chip.assign_row(layouter, prev_b, prev_c)?;
            proof {
                assert(fib_chain(a0, b0, i as int) == f_add(
                    fib_chain(a0, b0, i - 2),
                    fib_chain(a0, b0, i - 1),
                ));
                assert(row_holds_chain(config, layouter.witness, start, a0, b0, i - 2));
                assert forall|rel: int|
                    0 <= rel < i - 1 implies #[trigger] row_holds_chain(
                    config,
                    layouter.witness,
                    start,
                    a0,
                    b0,
                    rel,
                ) by {
                    if rel < i - 2 {
                        assert(row_holds_chain(config, w_head, start, a0, b0, rel));
                        assert(layouter.witness.advice_at(
                            config.col_a.index as int,
                            start + rel,
                        ) == w_head.advice_at(config.col_a.index as int, start + rel));
                        assert(layouter.witness.advice_at(
                            config.col_b.index as int,
                            start + rel,
                        ) == w_head.advice_at(config.col_b.index as int, start + rel));
                        assert(layouter.witness.advice_at(
                            config.col_c.index as int,
                            start + rel,
                        ) == w_head.advice_at(config.col_c.index as int, start + rel));
                    }
                }
                assert forall|rel: int|
                    0 <= rel < i - 1 implies #[trigger] layouter.witness.sel_on(
                    config.selector.index as int,
                    start + rel,
                ) by {
                    if rel < i - 2 {
                        assert(w_head.sel_on(config.selector.index as int, start + rel));
                    }
                }
            }
            i = i + 1;
        }
        layouter.namespace("out");
        chip.expose_public(layouter, &c_cell, 0)?;
        Ok(())
    }
}

/// Row `start + rel` of the built table: column a holds the chain value at
/// `rel`, column b the next, column c the one after.
pub open spec fn row_holds_chain(
    config: FiboConfig,
    w: crate::layout::Witness,
    start: int,
    a0: int,
    b0: int,
    rel: int,
) -> bool {
    &&& w.advice_at(config.col_a.index as int, start + rel) matches Some(f) && f.val()
        == fib_chain(a0, b0, rel)
    &&& w.advice_at(config.col_b.index as int, start + rel) matches Some(f) && f.val()
        == fib_chain(a0, b0, rel + 1)
    &&& w.advice_at(config.col_c.index as int, start + rel) matches Some(f) && f.val()
        == fib_chain(a0, b0, rel + 2)
}

/// What a successful synthesis leaves behind: starting at the old cursor,
/// eight rows holding the chained recurrence with the add selector on exactly
/// those rows, every other cell and selector bit untouched, no copy pair
/// recorded, and the last row's c bound to public input 0 of the instance
/// column.
pub open spec fn synthesized(
    config: FiboConfig,
    pre: Layouter,
    post: Layouter,
    a0: int,
    b0: int,
) -> bool {
    let start = pre.cursor as int;
    let w = post.witness;
    &&& !post.in_region
    &&& post.cursor == pre.cursor + 8
    &&& post.copies@ == pre.copies@
    &&& post.bindings@ == pre.bindings@.push(
        crate::layout::InstanceBinding {
            cell: (Cell { column: config.col_c, row: (pre.cursor + 7) as usize }),
            column: config.instance,
            index: 0,
        },
    )
    &&& forall|rel: int|
        0 <= rel < 8 ==> #[trigger] row_holds_chain(config, w, start, a0, b0, rel)
    &&& forall|rel: int|
        0 <= rel < 8 ==> #[trigger] w.sel_on(config.selector.index as int, start + rel)
    &&& forall|c: int, rw: int|
        0 <= c < pre.cs.spec_num_advice() && 0 <= rw < pre.witness.n_rows && !(start <= rw < start
            + 8 && (c == config.col_a.index || c == config.col_b.index || c
            == config.col_c.index)) ==> #[trigger] w.advice_at(c, rw) == pre.witness.advice_at(
            c,
            rw,
        )
    &&& forall|sx: int, rw: int|
        0 <= sx < pre.cs.num_selectors && 0 <= rw < pre.witness.n_rows && !(sx
            == config.selector.index && start <= rw < start + 8) ==> #[trigger] w.sel_on(sx, rw)
            == pre.witness.sel_on(sx, rw)
    &&& w.fixed@ == pre.witness.fixed@
}

/// Configures a fresh constraint system, lays out 2^k rows, synthesizes the
/// circuit's witness and checks it against the supplied public inputs (one
/// vector per instance column). An error means the witness could not even be
/// built; the checker's verdict is the `Ok` payload: Accept exactly when the
/// supplied public input 0 of the one instance column equals the chain value
/// after eight additions.
pub fn run(k: u32, circuit: &MyCircuit, public_inputs: Vec<Vec<Felt>>) -> (r: Result<
    CheckOutcome,
    Error,
>)
    requires
        k < 30,
        pubs_canonical(crate::checker::pubs_view(public_inputs)),
        circuit.a matches Some(f) ==> f.is_canonical(),
        circuit.b matches Some(f) ==> f.is_canonical(),
    ensures
        r is Ok <==> (circuit.a is Some && circuit.b is Some && 8 <= (1usize << k)),
        r matches Ok(outcome) ==> (outcome is Accept <==> {
            let pv = crate::checker::pubs_view(public_inputs);
            &&& pv.len() > 0
            &&& pv[0].len() > 0
            &&& pv[0][0].val() == fib_chain(
                circuit.a->Some_0.val() as int,
                circuit.b->Some_0.val() as int,
                9,
            )
        }),
{
    let mut cs = ConstraintSystem::new();
    let config = match MyCircuit::configure(&mut cs) {
        Ok(config) => config,
        Err(e) => {
            return Err(e);
        },
    };
    let mut layouter = Layouter::new(cs, k);
    let ghost fresh = layouter;
    circuit.synthesize(config, &mut layouter)?;
    let frozen = layouter.freeze();
    let outcome = check(&frozen, &public_inputs);
    proof {
        let pv = crate::checker::pubs_view(public_inputs);
        let a0 = circuit.a->Some_0.val() as int;
        let b0 = circuit.b->Some_0.val() as int;
        let w = frozen.witness;
        let sel_idx = config.selector.index as int;
        let binding = crate::layout::InstanceBinding {
            cell: (Cell { column: config.col_c, row: 7 }),
            column: config.instance,
            index: 0,
        };
        assert(synthesized(config, fresh, layouter, a0, b0));
        assert(frozen.bindings@ =~= seq![binding]);
        assert(frozen.copies@ =~= Seq::<(Cell, Cell)>::empty());
        // Every recorded pair holds, vacuously.
        assert(pairs_ok(w, pv, frozen.copies@));
        // Every gate holds: the only enabled rows are the eight built ones,
        // and each satisfies the recurrence.
        assert forall|rr: int|
            0 <= rr < w.n_rows && #[trigger] w.sel_on(sel_idx, rr) implies {
            let va = cell_value(w, pv, config.col_a, rr);
            let vb = cell_value(w, pv, config.col_b, rr);
            let vc = cell_value(w, pv, config.col_c, rr);
            &&& va is Some
            &&& vb is Some
            &&& vc is Some
            &&& vc->Some_0.val() == f_add(va->Some_0.val() as int, vb->Some_0.val() as int)
        } by {
            if !(0 <= rr < 8) {
                assert(w.sel_on(sel_idx, rr) == fresh.witness.sel_on(sel_idx, rr));
                assert(false);
            }
            assert(row_holds_chain(config, w, 0, a0, b0, rr));
            assert(fib_chain(a0, b0, rr + 2) == f_add(
                fib_chain(a0, b0, rr),
                fib_chain(a0, b0, rr + 1),
            ));
        }
        lemma_recurrence_gates_ok(frozen, pv, config);
        // The single binding holds exactly when public input 0 is the chain
        // value after eight additions.
        assert(row_holds_chain(config, w, 0, a0, b0, 7));
        let w9 = w.advice_at(config.col_c.index as int, 7)->Some_0;
        assert(cell_value(w, pv, config.col_c, 7) == Some(w9));
        if pv.len() > 0 && pv[0].len() > 0 && pv[0][0].val() == fib_chain(a0, b0, 9) {
            assert(pv[0][0].is_canonical());
            crate::field::lemma_canonical_eq(pv[0][0], w9);
            assert(crate::checker::binding_ok(w, pv, binding));
            assert(bindings_ok(frozen.bindings@, w, pv));
        }
        if bindings_ok(frozen.bindings@, w, pv) {
            assert(crate::checker::binding_ok(w, pv, frozen.bindings@[0]));
            assert(pv[0][0] == w9);
        }
    }
    Ok(outcome)
}

/// The add gate holds at every row of a witness whose enabled rows satisfy
/// the recurrence.
pub proof fn lemma_recurrence_gates_ok(f: Frozen, pubs: Seq<Seq<Felt>>, config: FiboConfig)
    requires
        f.wf(),
        config.matches(f.cs),
        f.cs.gates@.len() == 1,
        f.cs.gates@[0].selector == config.selector,
        is_add_gate_poly(f.cs.gates@[0].poly, config.col_a, config.col_b, config.col_c),
        forall|r: int|
            0 <= r < f.witness.n_rows && #[trigger] f.witness.sel_on(
                config.selector.index as int,
                r,
            ) ==> {
                let va = cell_value(f.witness, pubs, config.col_a, r);
                let vb = cell_value(f.witness, pubs, config.col_b, r);
                let vc = cell_value(f.witness, pubs, config.col_c, r);
                &&& va is Some
                &&& vb is Some
                &&& vc is Some
                &&& vc->Some_0.val() == f_add(va->Some_0.val() as int, vb->Some_0.val() as int)
            },
    ensures
        gates_ok(f.cs, f.witness, pubs),
{
    let w = f.witness;
    assert forall|g: int, r: int|
        0 <= g < f.cs.gates@.len() && 0 <= r < w.n_rows implies #[trigger] gate_ok_at(
        f.cs,
        w,
        pubs,
        g,
        r,
    ) by {
        let poly = f.cs.gates@[0].poly;
        if w.sel_on(config.selector.index as int, r) {
            let va = cell_value(w, pubs, config.col_a, r);
            let vb = cell_value(w, pubs, config.col_b, r);
            let vc = cell_value(w, pubs, config.col_c, r);
            match poly {
                Expr::Diff(sum, qc) => {
                    match *sum {
                        Expr::Sum(qa, qb) => {
                            assert(eval_expr_spec(*qa, r, w, pubs) == Some(
                                va->Some_0.val() as int,
                            ));
                            assert(eval_expr_spec(*qb, r, w, pubs) == Some(
                                vb->Some_0.val() as int,
                            ));
                            assert(eval_expr_spec(*qc, r, w, pubs) == Some(
                                vc->Some_0.val() as int,
                            ));
                            assert(eval_expr_spec(*sum, r, w, pubs) == Some(
                                f_add(va->Some_0.val() as int, vb->Some_0.val() as int),
                            ));
                            assert(eval_expr_spec(poly, r, w, pubs) == Some(0int));
                        },
                        _ => {},
                    }
                },
                _ => {},
            }
        }
    }
}

pub proof fn lemma_recurrence_accepts(f: Frozen, pubs: Seq<Seq<Felt>>, config: FiboConfig)
    requires
        f.wf(),
        config.matches(f.cs),
        f.cs.gates@.len() == 1,
        f.cs.gates@[0].selector == config.selector,
        is_add_gate_poly(f.cs.gates@[0].poly, config.col_a, config.col_b, config.col_c),
        f.copies@.len() == 0,
        bindings_ok(f.bindings@, f.witness, pubs),
        forall|r: int|
            0 <= r < f.witness.n_rows && #[trigger] f.witness.sel_on(
                config.selector.index as int,
                r,
            ) ==> {
                let va = cell_value(f.witness, pubs, config.col_a, r);
                let vb = cell_value(f.witness, pubs, config.col_b, r);
                let vc = cell_value(f.witness, pubs, config.col_c, r);
                &&& va is Some
                &&& vb is Some
                &&& vc is Some
                &&& vc->Some_0.val() == f_add(va->Some_0.val() as int, vb->Some_0.val() as int)
            },
    ensures
        spec_satisfied(f, pubs),
        check_spec(f, pubs) == OutcomeV::Accept,
{
    let w = f.witness;
    lemma_recurrence_gates_ok(f, pubs, config);
    assert(classes_ok(f.copies@, w, pubs)) by {
        assert(copy_classes(f.copies@).len() == 0);
    }
    assert(check_spec(f, pubs) == OutcomeV::Accept) by {
        crate::checker::lemma_gate_fails_upto_empty(f.cs, w, pubs, w.n_rows as int);
        crate::checker::lemma_copy_fails_upto_empty(
            copy_classes(f.copies@),
            w,
            pubs,
            copy_classes(f.copies@).len() as int,
        );
        crate::checker::lemma_binding_fails_upto_empty(
            f.bindings@,
            w,
            pubs,
            f.bindings@.len() as int,
        );
    }
}

} // verus!
