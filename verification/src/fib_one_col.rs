//! The one-column Fibonacci circuit: a single advice column, one instance
//! column, and one gate with three rotations encoding a(r) + a(r+1) = a(r+2).
//! One region holds the whole table; the selector is enabled on every row
//! except the last two, since a gate at row r reads rows r+1 and r+2. The last
//! cell is bound to public input 0.

use vstd::prelude::*;

use crate::checker::{
    binding_ok, bindings_ok, cell_value, check, eval_expr_spec, gate_ok_at, gates_ok, pairs_ok,
    pubs_canonical, CheckOutcome,
};
use crate::field::{f_add, fib_chain, lemma_canonical_eq, Felt};
use crate::layout::{AssignedCell, Frozen, InstanceBinding, Layouter};
use crate::system::{Cell, Column, ColumnKind, ConfigError, ConstraintSystem, Error, Expr,
    Selector, SynthesisError};

verus! {

broadcast use vstd::string::to_string_from_display_ensures_for_str;

/// Row `start + rel` of the built table holds the chain value at `rel`.
pub open spec fn table_row(
    config: FiboConfig,
    w: crate::layout::Witness,
    start: int,
    a0: int,
    b0: int,
    rel: int,
) -> bool {
    w.advice_at(config.advice.index as int, start + rel) matches Some(f) && f.val() == fib_chain(
        a0,
        b0,
        rel,
    )
}

/// The recurrence selector's bit at row `start + rel`.
pub open spec fn table_sel(config: FiboConfig, w: crate::layout::Witness, start: int, rel: int) -> bool {
    w.sel_on(config.selector.index as int, start + rel)
}

/// The polynomial of the recurrence gate: `a(r) + a(r+1) - a(r+2)`.
pub open spec fn is_fib_gate_poly(e: Expr, a: Column) -> bool {
    &&& e matches Expr::Diff(sum, q2)
    &&& *sum matches Expr::Sum(q0, q1)
    &&& *q0 == (Expr::Query { column: a, rotation: 0 })
    &&& *q1 == (Expr::Query { column: a, rotation: 1 })
    &&& *q2 == (Expr::Query { column: a, rotation: 2 })
}

/// The chip's configuration: the one advice column, the instance column and
/// the selector.
#[derive(Clone, Copy, PartialEq, Eq, Structural, Debug)]
pub struct FiboConfig {
    pub advice: Column,
    pub instance: Column,
    pub selector: Selector,
}

impl FiboConfig {
    /// The configuration addresses a declared advice column, a declared
    /// instance column and a declared selector, and the circuit's only gate
    /// is the recurrence gate on that selector.
    pub open spec fn matches(self, cs: ConstraintSystem) -> bool {
        &&& self.advice.kind == ColumnKind::Advice && cs.column_declared(self.advice)
        &&& self.instance.kind == ColumnKind::Instance && cs.column_declared(self.instance)
        &&& self.selector.index < cs.num_selectors
        &&& cs.gates@.len() == 1
        &&& cs.gates@[0].selector == self.selector
        &&& is_fib_gate_poly(cs.gates@[0].poly, self.advice)
    }
}

/// The chip: drives the layouter to build the one-column recurrence table.
pub struct FiboChip {
    pub config: FiboConfig,
}

impl FiboChip {
    pub fn construct(config: FiboConfig) -> (r: FiboChip)
        ensures
            r.config == config,
    {
        FiboChip { config }
    }

    /// Declares the selector, equality-enables the two columns and creates
    /// the three-rotation recurrence gate.
    pub fn configure(meta: &mut ConstraintSystem, advice: Column, instance: Column) -> (r: Result<
        FiboConfig,
        Error,
    >)
        requires
            old(meta).wf(),
            old(meta).num_selectors < usize::MAX,
        ensures
            final(meta).wf(),
            r is Ok <==> (old(meta).column_declared(advice) && old(meta).column_declared(
                instance,
            )),
            r matches Ok(config) ==> {
                &&& config == (FiboConfig {
                    advice,
                    instance,
                    selector: (Selector { index: old(meta).num_selectors }),
                })
                &&& final(meta).gates@.len() == old(meta).gates@.len() + 1
                &&& final(meta).gates@.last().selector == config.selector
                &&& final(meta).gates@.last().name@ == "add"@
                &&& is_fib_gate_poly(final(meta).gates@.last().poly, advice)
                &&& final(meta).spec_equality_enabled(advice)
                &&& final(meta).spec_equality_enabled(instance)
                &&& final(meta).gates@.subrange(0, old(meta).gates@.len() as int) == old(
                    meta,
                ).gates@
                &&& final(meta).num_selectors == old(meta).num_selectors + 1
                &&& final(meta).spec_num_advice() == old(meta).spec_num_advice()
                &&& final(meta).spec_num_instance() == old(meta).spec_num_instance()
                &&& final(meta).spec_num_fixed() == old(meta).spec_num_fixed()
            },
            r is Err ==> final(meta).gates@ == old(meta).gates@ && r == Err::<FiboConfig, Error>(
                Error::Configuration(ConfigError::UndeclaredColumn),
            ),
    {
        let selector = meta.declare_selector();
        meta.enable_equality(advice)?;
        meta.enable_equality(instance)?;
        let poly = Expr::Diff(
            Box::new(
                Expr::Sum(
                    Box::new(Expr::Query { column: advice, rotation: 0 }),
                    Box::new(Expr::Query { column: advice, rotation: 1 }),
                ),
            ),
            Box::new(Expr::Query { column: advice, rotation: 2 }),
        );
        proof {
            assert(poly.wf(
                meta.spec_num_advice(),
                meta.spec_num_instance(),
                meta.spec_num_fixed(),
            )) by {
                reveal_with_fuel(Expr::wf, 4);
            }
        }
        meta.create_gate("add".to_string(), selector, poly)?;
        Ok(FiboConfig { advice, instance, selector })
    }

    /// One region of `iter_num` rows: the two inputs in rows 0 and 1, each
    /// further row the sum of the two above it, with the recurrence gate
    /// enabled on every row but the last two; returns the handle to the last
    /// cell. Fails when an input is missing, when fewer than four rows are
    /// asked for (the two-row rotation would read past the region), or when
    /// the rows do not fit.
    #[verifier::rlimit(90)]
    #[verifier::loop_isolation(false)]
    pub fn assign(
        &self,
        layouter: &mut Layouter,
        init_a: Option<Felt>,
        init_b: Option<Felt>,
        iter_num: usize,
    ) -> (r: Result<AssignedCell, Error>)
        requires
            old(layouter).wf(),
            !old(layouter).in_region,
            self.config.matches(old(layouter).cs),
            init_a matches Some(f) ==> f.is_canonical(),
            init_b matches Some(f) ==> f.is_canonical(),
        ensures
            final(layouter).wf(),
            final(layouter).cs == old(layouter).cs,
            final(layouter).witness.n_rows == old(layouter).witness.n_rows,
            r is Ok <==> (init_a is Some && init_b is Some && 4 <= iter_num && old(
                layouter,
            ).cursor + iter_num <= old(layouter).witness.n_rows),
            old(layouter).cursor + 2 > old(layouter).witness.n_rows ==> r == Err::<
                AssignedCell,
                Error,
            >(Error::Synthesis(SynthesisError::RowRangeExceeded)),
            old(layouter).cursor + 2 <= old(layouter).witness.n_rows && (init_a is None
                || init_b is None) ==> r == Err::<AssignedCell, Error>(
                Error::Synthesis(SynthesisError::MissingValue),
            ),
            old(layouter).cursor + 2 <= old(layouter).witness.n_rows && init_a is Some
                && init_b is Some && old(layouter).cursor + iter_num > old(
                layouter,
            ).witness.n_rows ==> r == Err::<AssignedCell, Error>(
                Error::Synthesis(SynthesisError::RowRangeExceeded),
            ),
            old(layouter).cursor + 2 <= old(layouter).witness.n_rows && init_a is Some
                && init_b is Some && old(layouter).cursor + iter_num <= old(
                layouter,
            ).witness.n_rows && iter_num < 4 ==> r == Err::<AssignedCell, Error>(
                Error::Synthesis(SynthesisError::RotationOutOfRange),
            ),
            r matches Ok(cell) ==> {
                let start = old(layouter).cursor as int;
                let a0 = init_a->Some_0.val() as int;
                let b0 = init_b->Some_0.val() as int;
                &&& !final(layouter).in_region
                &&& final(layouter).cursor == old(layouter).cursor + iter_num
                &&& final(layouter).copies@ == old(layouter).copies@
                &&& final(layouter).bindings@ == old(layouter).bindings@
                &&& cell.cell.column == self.config.advice
                &&& cell.cell.row == old(layouter).cursor + iter_num - 1
                &&& cell.value.is_canonical()
                &&& cell.value.val() == fib_chain(a0, b0, iter_num - 1)
                &&& forall|rel: int|
                    0 <= rel < iter_num ==> #[trigger] table_row(
                        self.config,
                        final(layouter).witness,
                        start,
                        a0,
                        b0,
                        rel,
                    )
                &&& forall|rel: int|
                    0 <= rel < iter_num ==> (#[trigger] table_sel(
                        self.config,
                        final(layouter).witness,
                        start,
                        rel,
                    ) <==> rel < iter_num - 2)
                &&& forall|c: int, rw: int|
                    0 <= c < old(layouter).cs.spec_num_advice() && 0 <= rw < old(
                        layouter,
                    ).witness.n_rows && !(c == self.config.advice.index && start <= rw < start
                        + iter_num) ==> #[trigger] final(layouter).witness.advice_at(c, rw)
                        == old(layouter).witness.advice_at(c, rw)
                &&& forall|sx: int, rw: int|
                    0 <= sx < old(layouter).cs.num_selectors && 0 <= rw < old(
                        layouter,
                    ).witness.n_rows && !(sx == self.config.selector.index && start <= rw < start
                        + iter_num) ==> #[trigger] final(layouter).witness.sel_on(sx, rw) == old(
                        layouter,
                    ).witness.sel_on(sx, rw)
                &&& final(layouter).witness.fixed@ == old(layouter).witness.fixed@
            },
    {
        let ghost start = old(layouter).cursor as int;
        let ghost sel_idx = self.config.selector.index as int;
        let ghost col_idx = self.config.advice.index as int;
        let ghost a0 = if init_a is Some {
            init_a->Some_0.val() as int
        } else {
            0int
        };
        let ghost b0 = if init_b is Some {
            init_b->Some_0.val() as int
        } else {
            0int
        };
        layouter.enter_region("fibonacci region")?;
        proof {
            assert(layouter.witness == old(layouter).witness);
        }
        layouter.enable_selector(self.config.selector, 0)?;
        layouter.enable_selector(self.config.selector, 1)?;
        proof {
            assert(old(layouter).witness.advice_at(col_idx, start) is None);
            assert(old(layouter).witness.advice_at(col_idx, start + 1) is None);
            assert(layouter.witness.advice_at(col_idx, start) is None);
            assert(layouter.witness.advice_at(col_idx, start + 1) is None);
        }
        let mut a_val = init_a;
        let mut b_val = init_b;
        layouter.assign_advice(self.config.advice, 0, a_val)?;
        let mut b_cell = layouter.assign_advice(self.config.advice, 1, b_val)?;
        proof {
            assert forall|rw: int|
                start <= rw < layouter.witness.n_rows
                    && #[trigger] layouter.witness.selectors@[sel_idx]@[rw] implies rw - start
                    < 2 by {
                if rw > start + 1 {
                    assert(!old(layouter).witness.sel_on(sel_idx, rw));
                }
            }
            assert(fib_chain(a0, b0, 0) == a0);
            assert(fib_chain(a0, b0, 1) == b0);
            assert(table_row(self.config, layouter.witness, start, a0, b0, 0));
            assert(table_row(self.config, layouter.witness, start, a0, b0, 1));
            assert(layouter.witness.sel_on(sel_idx, start));
            assert(layouter.witness.sel_on(sel_idx, start + 1));
            assert forall|rel: int|
                0 <= rel < 2 implies (#[trigger] table_sel(
                self.config,
                layouter.witness,
                start,
                rel,
            ) <==> (rel < 2 || rel < iter_num - 2)) by {
                assert(rel == 0 || rel == 1);
            }
            assert forall|c: int, rw: int|
                0 <= c < old(layouter).cs.spec_num_advice() && 0 <= rw < old(
                    layouter,
                ).witness.n_rows && !(c == col_idx && start <= rw < start + 2) implies #[trigger]
            layouter.witness.advice_at(c, rw) == old(layouter).witness.advice_at(c, rw) by {}
            assert forall|sx: int, rw: int|
                0 <= sx < old(layouter).cs.num_selectors && 0 <= rw < old(
                    layouter,
                ).witness.n_rows && !(sx == sel_idx && start <= rw < start + 2) implies #[trigger]
            layouter.witness.sel_on(sx, rw) == old(layouter).witness.sel_on(sx, rw) by {
                if sx != sel_idx {
                    assert(layouter.witness.selectors@[sx] == old(layouter).witness.selectors@[
                        sx]);
                }
            }
            assert(layouter.witness.fixed@ == old(layouter).witness.fixed@);
        }
        let mut row: usize = 2;
        while row < iter_num
            invariant
                2 <= row <= iter_num || (iter_num < 2 && row == 2),
                layouter.wf(),
                layouter.in_region,
                layouter.cs == old(layouter).cs,
                self.config.matches(layouter.cs),
                layouter.witness.n_rows == old(layouter).witness.n_rows,
                layouter.cursor == old(layouter).cursor,
                layouter.copies@ == old(layouter).copies@,
                layouter.bindings@ == old(layouter).bindings@,
                layouter.region_extent == if row >= 2 { row as int } else { 2 },
                init_a is Some && init_b is Some,
                a_val is Some && a_val->Some_0.is_canonical(),
                b_val is Some && b_val->Some_0.is_canonical(),
                a_val->Some_0.val() == fib_chain(
                    init_a->Some_0.val() as int,
                    init_b->Some_0.val() as int,
                    row - 2,
                ),
                b_val->Some_0.val() == fib_chain(
                    init_a->Some_0.val() as int,
                    init_b->Some_0.val() as int,
                    row - 1,
                ),
                b_cell.value == b_val->Some_0,
                b_cell.cell.column == self.config.advice,
                b_cell.cell.row == start + row - 1,
                b_cell.value.is_canonical(),
                layouter.witness.sel_on(sel_idx, start + 1),
                a0 == init_a->Some_0.val() as int,
                b0 == init_b->Some_0.val() as int,
                forall|rw: int|
                    start <= rw < layouter.witness.n_rows
                        && #[trigger] layouter.witness.selectors@[sel_idx]@[rw] ==> rw - start < 2
                        || rw - start < iter_num - 2,
                forall|rel: int|
                    0 <= rel < row ==> #[trigger] table_row(
                        self.config,
                        layouter.witness,
                        start,
                        a0,
                        b0,
                        rel,
                    ),
                forall|rel: int|
                    0 <= rel < row ==> (#[trigger] table_sel(
                        self.config,
                        layouter.witness,
                        start,
                        rel,
                    ) <==> (rel < 2 || rel < iter_num - 2)),
                forall|c: int, rw: int|
                    0 <= c < old(layouter).cs.spec_num_advice() && 0 <= rw < old(
                        layouter,
                    ).witness.n_rows && !(c == col_idx && start <= rw < start + row)
                        ==> #[trigger] layouter.witness.advice_at(c, rw) == old(
                        layouter,
                    ).witness.advice_at(c, rw),
                forall|sx: int, rw: int|
                    0 <= sx < old(layouter).cs.num_selectors && 0 <= rw < old(
                        layouter,
                    ).witness.n_rows && !(sx == sel_idx && start <= rw < start + row)
                        ==> #[trigger] layouter.witness.sel_on(sx, rw) == old(
                        layouter,
                    ).witness.sel_on(sx, rw),
                layouter.witness.fixed@ == old(layouter).witness.fixed@,
            decreases iter_num - row,
        {
            proof {
                if start + row < layouter.witness.n_rows {
                    assert(layouter.witness.advice_at(col_idx, start + row) is None);
                }
            }
            let ghost pre_loop_witness = layouter.witness;
            if row < iter_num - 2 {
                layouter.enable_selector(self.config.selector, row)?;
            }
            proof {
                assert(layouter.witness.advice@ == pre_loop_witness.advice@);
                if start + row < layouter.witness.n_rows {
                    assert(layouter.witness.advice_at(col_idx, start + row) is None);
                }
            }
            let next = match (a_val, b_val) {
                (Some(x), Some(y)) => Some(x.add(y)),
                _ => None,
            };
            b_cell = layouter.assign_advice(self.config.advice, row, next)?;
            proof {
                assert(layouter.witness.selectors@ == pre_loop_witness.selectors@ || (row
                    < iter_num - 2 && layouter.witness.selectors@ == pre_loop_witness.selectors@
                    .update(sel_idx, layouter.witness.selectors@[sel_idx])
                    && layouter.witness.selectors@[sel_idx]@ == pre_loop_witness.selectors@[
                    sel_idx]@.update(start + row, true)));
                assert forall|rw: int|
                    start <= rw < layouter.witness.n_rows
                        && #[trigger] layouter.witness.selectors@[sel_idx]@[rw] implies rw - start
                    < 2 || rw - start < iter_num - 2 by {
                    if layouter.witness.selectors@ != pre_loop_witness.selectors@ && rw != start
                        + row {
                        assert(pre_loop_witness.selectors@[sel_idx]@[rw]);
                    }
                }
                assert(fib_chain(a0, b0, row as int) == f_add(
                    fib_chain(a0, b0, row - 2),
                    fib_chain(a0, b0, row - 1),
                ));
                assert(table_row(self.config, layouter.witness, start, a0, b0, row as int));
                assert forall|rel: int|
                    0 <= rel < row + 1 implies #[trigger] table_row(
                    self.config,
                    layouter.witness,
                    start,
                    a0,
                    b0,
                    rel,
                ) by {
                    if rel < row {
                        assert(table_row(self.config, pre_loop_witness, start, a0, b0, rel));
                        assert(layouter.witness.advice_at(col_idx, start + rel)
                            == pre_loop_witness.advice_at(col_idx, start + rel));
                    }
                }
                assert forall|rel: int|
                    0 <= rel < row + 1 implies (#[trigger] table_sel(
                    self.config,
                    layouter.witness,
                    start,
                    rel,
                ) <==> (rel < 2 || rel < iter_num - 2)) by {
                    if rel < row {
                        assert(table_sel(self.config, pre_loop_witness, start, rel) <==> (rel < 2
                            || rel < iter_num - 2));
                        assert(layouter.witness.selectors@[sel_idx]@[start + rel]
                            == pre_loop_witness.selectors@[sel_idx]@[start + rel]);
                    } else {
                        if row < iter_num - 2 {
                            assert(layouter.witness.sel_on(sel_idx, start + row));
                        } else {
                            assert(layouter.witness.selectors@ == pre_loop_witness.selectors@);
                            assert(!pre_loop_witness.sel_on(sel_idx, start + row));
                        }
                    }
                }
                assert forall|c: int, rw: int|
                    0 <= c < old(layouter).cs.spec_num_advice() && 0 <= rw < old(
                        layouter,
                    ).witness.n_rows && !(c == col_idx && start <= rw < start + row + 1) implies
                #[trigger] layouter.witness.advice_at(c, rw) == old(
                    layouter,
                ).witness.advice_at(c, rw) by {
                    assert(layouter.witness.advice_at(c, rw) == pre_loop_witness.advice_at(
                        c,
                        rw,
                    ));
                    assert(pre_loop_witness.advice_at(c, rw) == old(
                        layouter,
                    ).witness.advice_at(c, rw));
                }
                assert forall|sx: int, rw: int|
                    0 <= sx < old(layouter).cs.num_selectors && 0 <= rw < old(
                        layouter,
                    ).witness.n_rows && !(sx == sel_idx && start <= rw < start + row + 1) implies
                #[trigger] layouter.witness.sel_on(sx, rw) == old(layouter).witness.sel_on(
                    sx,
                    rw,
                ) by {
                    if sx != sel_idx {
                        assert(layouter.witness.selectors@[sx]
                            == pre_loop_witness.selectors@[sx]);
                        assert(pre_loop_witness.sel_on(sx, rw) == old(layouter).witness.sel_on(
                            sx,
                            rw,
                        ));
                    } else {
                        assert(layouter.witness.selectors@[sel_idx]@[rw]
                            == pre_loop_witness.selectors@[sel_idx]@[rw]);
                        assert(pre_loop_witness.sel_on(sel_idx, rw) == old(
                            layouter,
                        ).witness.sel_on(sel_idx, rw));
                    }
                }
                assert(layouter.witness.fixed@ == pre_loop_witness.fixed@);
            }
            a_val = b_val;
            b_val = Some(b_cell.value());
            row = row + 1;
        }
        proof {
            reveal_with_fuel(Expr::min_rotation, 4);
            reveal_with_fuel(Expr::max_rotation, 4);
            let poly = layouter.cs.gates@[0].poly;
            match poly {
                Expr::Diff(sum, q2) => {
                    match *sum {
                        Expr::Sum(q0, q1) => {
                            assert(poly.max_rotation() == 2);
                            assert(poly.min_rotation() == 0);
                        },
                        _ => {},
                    }
                },
                _ => {},
            }
            if init_a is Some && init_b is Some && 4 <= iter_num && start + iter_num <= layouter
                .witness.n_rows {
                assert forall|gi: int, rel: int|
                    0 <= gi < layouter.cs.gates@.len() && 0 <= rel < layouter.region_extent implies
                    #[trigger] layouter.gate_region_ok(gi, rel) by {
                    if layouter.witness.sel_on(sel_idx, start + rel) {
                        assert(layouter.witness.selectors@[sel_idx]@[start + rel]);
                        assert(rel < 2 || rel < iter_num - 2);
                    }
                }
                assert(layouter.spec_region_rotations_ok());
            } else {
                assert(!layouter.gate_region_ok(0, 1));
                assert(!layouter.spec_region_rotations_ok());
            }
        }
        let out = layouter.exit_region();
        match out {
            Ok(_) => Ok(b_cell),
            Err(e) => Err(e),
        }
    }

    /// Binds an assigned cell to public input `row` of the instance column.
    pub fn expose_public(
        &self,
        layouter: &mut Layouter,
        cell: &AssignedCell,
        row: usize,
    ) -> (r: Result<(), Error>)
        requires
            old(layouter).wf(),
            self.config.matches(old(layouter).cs),
            old(layouter).cs.column_declared(cell.cell.column),
            cell.cell.row < old(layouter).witness.n_rows,
        ensures
            final(layouter).wf(),
            r is Ok,
            final(layouter).cs == old(layouter).cs,
            final(layouter).witness == old(layouter).witness,
            final(layouter).cursor == old(layouter).cursor,
            final(layouter).in_region == old(layouter).in_region,
            final(layouter).copies@ == old(layouter).copies@,
            final(layouter).bindings@ == old(layouter).bindings@.push(
                crate::layout::InstanceBinding {
                    cell: cell.cell,
                    column: self.config.instance,
                    index: row,
                },
            ),
    {
        layouter.constrain_instance(cell.cell, self.config.instance, row)
    }
}

/// The one-column Fibonacci circuit: two optional inputs, a ten-row
/// recurrence table, and the last cell bound to public input 0.
pub struct MyCircuit {
    pub a: Option<Felt>,
    pub b: Option<Felt>,
}

impl MyCircuit {
    /// A copy of the circuit with the witness stripped, for shape-only passes.
    pub fn without_witnesses(&self) -> (r: MyCircuit)
        ensures
            r.a is None,
            r.b is None,
    {
        MyCircuit { a: None, b: None }
    }

    /// Declares the circuit's columns and hands them to the chip.
    pub fn configure(meta: &mut ConstraintSystem) -> (r: Result<FiboConfig, Error>)
        requires
            old(meta).wf(),
            old(meta).gates@.len() == 0,
            old(meta).num_selectors == 0,
            old(meta).spec_num_advice() == 0,
            old(meta).spec_num_instance() == 0,
            old(meta).spec_num_fixed() < usize::MAX - 1,
        ensures
            final(meta).wf(),
            r is Ok,
            r matches Ok(config) ==> {
                &&& config.matches(*final(meta))
                &&& config.instance == (Column { kind: ColumnKind::Instance, index: 0 })
                &&& config.advice == (Column { kind: ColumnKind::Advice, index: 0 })
                &&& final(meta).gates@.last().name@ == "add"@
                &&& final(meta).spec_num_advice() == 1
                &&& final(meta).spec_num_instance() == 1
                &&& final(meta).spec_num_fixed() == old(meta).spec_num_fixed()
                &&& final(meta).num_selectors == 1
                &&& final(meta).gates@.len() == 1
            },
    {
        let advice = meta.declare_column(ColumnKind::Advice);
        let instance = meta.declare_column(ColumnKind::Instance);
        FiboChip::configure(meta, advice, instance)
    }

    /// Lays the whole circuit out: the ten-row recurrence table, then binds
    /// the last cell to public input 0. Succeeds exactly when both inputs
    /// are known and ten rows fit, leaving behind exactly the state
    /// `synthesized` describes.
    pub fn synthesize(&self, config: FiboConfig, layouter: &mut Layouter) -> (r: Result<
        (),
        Error,
    >)
        requires
            old(layouter).wf(),
            !old(layouter).in_region,
            config.matches(old(layouter).cs),
            self.a matches Some(f) ==> f.is_canonical(),
            self.b matches Some(f) ==> f.is_canonical(),
        ensures
            final(layouter).wf(),
            final(layouter).cs == old(layouter).cs,
            final(layouter).witness.n_rows == old(layouter).witness.n_rows,
            r is Ok <==> (self.a is Some && self.b is Some && old(layouter).cursor + 10 <= old(
                layouter,
            ).witness.n_rows),
            old(layouter).cursor + 2 <= old(layouter).witness.n_rows && (self.a is None
                || self.b is None) ==> r == Err::<(), Error>(
                Error::Synthesis(SynthesisError::MissingValue),
            ),
            r is Err && self.a is Some && self.b is Some ==> r == Err::<(), Error>(
                Error::Synthesis(SynthesisError::RowRangeExceeded),
            ),
            r is Ok ==> synthesized(
                config,
                *old(layouter),
                *final(layouter),
                self.a->Some_0.val() as int,
                self.b->Some_0.val() as int,
            ),
    {
        let chip = FiboChip::construct(config);
        layouter.namespace("fibonacci table");
        let c_cell = chip.assign(layouter, self.a, self.b, 10)?;
        layouter.namespace("out");
        chip.expose_public(layouter, &c_cell, 0)?;
        Ok(())
    }
}

/// What a successful synthesis leaves behind: starting at the old cursor, the
/// ten-row recurrence table with the selector on exactly its first eight
/// rows, every other cell and selector bit untouched, no copy pair recorded,
/// and the last cell bound to public input 0 of the instance column.
pub open spec fn synthesized(
    config: FiboConfig,
    pre: Layouter,
    post: Layouter,
    a0: int,
    b0: int,
) -> bool {
    let start = pre.cursor as int;
    let w = post.witness;
    &&& !post.in_region
    &&& post.cursor == pre.cursor + 10
    &&& post.copies@ == pre.copies@
    &&& post.bindings@ == pre.bindings@.push(
        InstanceBinding {
            cell: (Cell { column: config.advice, row: (pre.cursor + 9) as usize }),
            column: config.instance,
            index: 0,
        },
    )
    &&& forall|rel: int| 0 <= rel < 10 ==> #[trigger] table_row(config, w, start, a0, b0, rel)
    &&& forall|rel: int|
        0 <= rel < 10 ==> (#[trigger] table_sel(config, w, start, rel) <==> rel < 8)
    &&& forall|c: int, rw: int|
        0 <= c < pre.cs.spec_num_advice() && 0 <= rw < pre.witness.n_rows && !(c
            == config.advice.index && start <= rw < start + 10) ==> #[trigger] w.advice_at(c, rw)
            == pre.witness.advice_at(c, rw)
    &&& forall|sx: int, rw: int|
        0 <= sx < pre.cs.num_selectors && 0 <= rw < pre.witness.n_rows && !(sx
            == config.selector.index && start <= rw < start + 10) ==> #[trigger] w.sel_on(sx, rw)
            == pre.witness.sel_on(sx, rw)
    &&& w.fixed@ == pre.witness.fixed@
}

/// The recurrence gate holds at every row of a witness whose selector-enabled
/// rows are each followed by two assigned rows continuing the chain.
pub proof fn lemma_table_gates_ok(f: Frozen, pubs: Seq<Seq<Felt>>, config: FiboConfig)
    requires
        f.wf(),
        config.matches(f.cs),
        forall|r: int|
            0 <= r < f.witness.n_rows && #[trigger] f.witness.sel_on(
                config.selector.index as int,
                r,
            ) ==> {
                let v0 = cell_value(f.witness, pubs, config.advice, r);
                let v1 = cell_value(f.witness, pubs, config.advice, r + 1);
                let v2 = cell_value(f.witness, pubs, config.advice, r + 2);
                &&& v0 is Some
                &&& v1 is Some
                &&& v2 is Some
                &&& v2->Some_0.val() == f_add(v0->Some_0.val() as int, v1->Some_0.val() as int)
            },
    ensures
        gates_ok(f.cs, f.witness, pubs),
{
    let w = f.witness;
    assert forall|g: int, r: int|
        0 <= g < f.cs.gates@.len() && 0 <= r < w.n_rows implies #[trigger] gate_ok_at(
        f.cs,
        w,
        pubs,
        g,
        r,
    ) by {
        let poly = f.cs.gates@[0].poly;
        if w.sel_on(config.selector.index as int, r) {
            let v0 = cell_value(w, pubs, config.advice, r);
            let v1 = cell_value(w, pubs, config.advice, r + 1);
            let v2 = cell_value(w, pubs, config.advice, r + 2);
            match poly {
                Expr::Diff(sum, q2) => {
                    match *sum {
                        Expr::Sum(q0, q1) => {
                            assert(eval_expr_spec(*q0, r, w, pubs) == Some(
                                v0->Some_0.val() as int,
                            ));
                            assert(eval_expr_spec(*q1, r, w, pubs) == Some(
                                v1->Some_0.val() as int,
                            ));
                            assert(eval_expr_spec(*q2, r, w, pubs) == Some(
                                v2->Some_0.val() as int,
                            ));
                            assert(eval_expr_spec(*sum, r, w, pubs) == Some(
                                f_add(v0->Some_0.val() as int, v1->Some_0.val() as int),
                            ));
                            assert(eval_expr_spec(poly, r, w, pubs) == Some(0int));
                        },
                        _ => {},
                    }
                },
                _ => {},
            }
        }
    }
}

/// Configures a fresh constraint system, lays out 2^k rows, synthesizes the
/// circuit's witness and checks it against the supplied public inputs. An
/// error means the witness could not even be built; the checker's verdict is
/// the `Ok` payload: Accept exactly when the supplied public input 0 of the
/// one instance column equals the chain value in the table's last row.
pub fn run(k: u32, circuit: &MyCircuit, public_inputs: Vec<Vec<Felt>>) -> (r: Result<
    CheckOutcome,
    Error,
>)
    requires
        k < 30,
        pubs_canonical(crate::checker::pubs_view(public_inputs)),
        circuit.a matches Some(f) ==> f.is_canonical(),
        circuit.b matches Some(f) ==> f.is_canonical(),
    ensures
        r is Ok <==> (circuit.a is Some && circuit.b is Some && 10 <= (1usize << k)),
        r matches Ok(outcome) ==> (outcome is Accept <==> {
            let pv = crate::checker::pubs_view(public_inputs);
            &&& pv.len() > 0
            &&& pv[0].len() > 0
            &&& pv[0][0].val() == fib_chain(
                circuit.a->Some_0.val() as int,
                circuit.b->Some_0.val() as int,
                9,
            )
        }),
{
    let mut cs = ConstraintSystem::new();
    let config = match MyCircuit::configure(&mut cs) {
        Ok(config) => config,
        Err(e) => {
            return Err(e);
        },
    };
    let mut layouter = Layouter::new(cs, k);
    let ghost fresh = layouter;
    circuit.synthesize(config, &mut layouter)?;
    let frozen = layouter.freeze();
    let outcome = check(&frozen, &public_inputs);
    proof {
        let pv = crate::checker::pubs_view(public_inputs);
        let a0 = circuit.a->Some_0.val() as int;
        let b0 = circuit.b->Some_0.val() as int;
        let w = frozen.witness;
        let sel_idx = config.selector.index as int;
        let binding = InstanceBinding {
            cell: (Cell { column: config.advice, row: 9 }),
            column: config.instance,
            index: 0,
        };
        assert(synthesized(config, fresh, layouter, a0, b0));
        assert(frozen.bindings@ =~= seq![binding]);
        assert(frozen.copies@ =~= Seq::<(Cell, Cell)>::empty());
        assert(pairs_ok(w, pv, frozen.copies@));
        assert forall|rr: int|
            0 <= rr < w.n_rows && #[trigger] w.sel_on(sel_idx, rr) implies {
            let v0 = cell_value(w, pv, config.advice, rr);
            let v1 = cell_value(w, pv, config.advice, rr + 1);
            let v2 = cell_value(w, pv, config.advice, rr + 2);
            &&& v0 is Some
            &&& v1 is Some
            &&& v2 is Some
            &&& v2->Some_0.val() == f_add(v0->Some_0.val() as int, v1->Some_0.val() as int)
        } by {
            if !(0 <= rr < 10) {
                assert(w.sel_on(sel_idx, rr) == fresh.witness.sel_on(sel_idx, rr));
                assert(false);
            }
            assert(table_sel(config, w, 0, rr));
            assert(rr < 8);
            assert(table_row(config, w, 0, a0, b0, rr));
            assert(table_row(config, w, 0, a0, b0, rr + 1));
            assert(table_row(config, w, 0, a0, b0, rr + 2));
            assert(fib_chain(a0, b0, rr + 2) == f_add(
                fib_chain(a0, b0, rr),
                fib_chain(a0, b0, rr + 1),
            ));
        }
        lemma_table_gates_ok(frozen, pv, config);
        assert(table_row(config, w, 0, a0, b0, 9));
        let w9 = w.advice_at(config.advice.index as int, 9)->Some_0;
        assert(cell_value(w, pv, config.advice, 9) == Some(w9));
        if pv.len() > 0 && pv[0].len() > 0 && pv[0][0].val() == fib_chain(a0, b0, 9) {
            assert(pv[0][0].is_canonical());
            lemma_canonical_eq(pv[0][0], w9);
            assert(binding_ok(w, pv, binding));
            assert(bindings_ok(frozen.bindings@, w, pv));
        }
        if bindings_ok(frozen.bindings@, w, pv) {
            assert(binding_ok(w, pv, frozen.bindings@[0]));
            assert(pv[0][0] == w9);
        }
    }
    Ok(outcome)
}

} // verus!
