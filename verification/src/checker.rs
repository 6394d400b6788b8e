//! The satisfiability checker: given a frozen synthesis and the supplied
//! public inputs, decides Accept or Reject, collecting every failure -- gate
//! by gate and row by row, then copy-constraint equivalence classes, then
//! public-input bindings -- rather than stopping at the first.

use vstd::prelude::*;

use crate::field::{f_add, f_mul, f_sub, field_modulus, Felt};
use crate::layout::{opt_canonical, Frozen, InstanceBinding, Witness};
use crate::system::{Cell, Column, ColumnKind, ConstraintSystem, Expr};

verus! {

/// The per-instance-column public-input vectors, as mathematical sequences.
pub open spec fn pubs_view(pubs: Vec<Vec<Felt>>) -> Seq<Seq<Felt>> {
    pubs@.map_values(|v: Vec<Felt>| v@)
}

/// Every supplied public input is a canonical field element.
pub open spec fn pubs_canonical(pubs: Seq<Seq<Felt>>) -> bool {
    forall|c: int, i: int|
        0 <= c < pubs.len() && 0 <= i < pubs[c].len() ==> (#[trigger] pubs[c][i]).is_canonical()
}

/// The value a cell holds once the witness is frozen, if any: advice and
/// fixed cells read the store; instance cells read the supplied public
/// inputs (a row past the supplied values is unassigned).
pub open spec fn cell_value(w: Witness, pubs: Seq<Seq<Felt>>, col: Column, row: int) -> Option<
    Felt,
> {
    if 0 <= row < w.n_rows {
        match col.kind {
            ColumnKind::Advice => if col.index < w.advice@.len() {
                w.advice_at(col.index as int, row)
            } else {
                None
            },
            ColumnKind::Fixed => if col.index < w.fixed@.len() {
                w.fixed_at(col.index as int, row)
            } else {
                None
            },
            ColumnKind::Instance => {
                let ci = col.index as int;
                if col.index < pubs.len() && row < pubs[ci].len() {
                    Some(pubs[ci][row])
                } else {
                    None
                }
            },
        }
    } else {
        None
    }
}

/// Evaluates an expression at a row: every query is substituted with the
/// value of its cell at `row + rotation`. `None` -- the incomplete outcome --
/// if any queried cell is out of the row range or unassigned; never a silent
/// zero.
pub open spec fn eval_expr_spec(e: Expr, row: int, w: Witness, pubs: Seq<Seq<Felt>>) -> Option<int>
    decreases e,
{
    match e {
        Expr::Constant(f) => Some((f.val() as int) % (field_modulus() as int)),
        Expr::Query { column, rotation } => match cell_value(w, pubs, column, row + rotation) {
            Some(f) => Some(f.val() as int),
            None => None,
        },
        Expr::Sum(a, b) => match (eval_expr_spec(*a, row, w, pubs), eval_expr_spec(
            *b,
            row,
            w,
            pubs,
        )) {
            (Some(x), Some(y)) => Some(f_add(x, y)),
            _ => None,
        },
        Expr::Diff(a, b) => match (eval_expr_spec(*a, row, w, pubs), eval_expr_spec(
            *b,
            row,
            w,
            pubs,
        )) {
            (Some(x), Some(y)) => Some(f_sub(x, y)),
            _ => None,
        },
        Expr::Prod(a, b) => match (eval_expr_spec(*a, row, w, pubs), eval_expr_spec(
            *b,
            row,
            w,
            pubs,
        )) {
            (Some(x), Some(y)) => Some(f_mul(x, y)),
            _ => None,
        },
    }
}

/// Looks a cell's value up, as `cell_value` describes.
pub fn lookup_cell(w: &Witness, pubs: &Vec<Vec<Felt>>, col: Column, row: usize) -> (r: Option<
    Felt,
>)
    requires
        w.internal_wf(),
    ensures
        r == cell_value(*w, pubs_view(*pubs), col, row as int),
{
    if row >= w.n_rows {
        return None;
    }
    match col.kind {
        ColumnKind::Advice => {
            if col.index < w.advice.len() {
                w.advice[col.index][row]
            } else {
                None
            }
        },
        ColumnKind::Fixed => {
            if col.index < w.fixed.len() {
                w.fixed[col.index][row]
            } else {
                None
            }
        },
        ColumnKind::Instance => {
            if col.index < pubs.len() {
                let column = &pubs[col.index];
                if row < column.len() {
                    Some(column[row])
                } else {
                    None
                }
            } else {
                None
            }
        },
    }
}

/// Evaluates an expression at a row against the frozen witness, mirroring
/// `eval_expr_spec`; the result, when there is one, is canonical.
pub fn eval_expr(e: &Expr, row: usize, w: &Witness, pubs: &Vec<Vec<Felt>>) -> (r: Option<Felt>)
    requires
        w.internal_wf(),
        w.n_rows <= 0x4000_0000,
        row < w.n_rows,
        pubs_canonical(pubs_view(*pubs)),
    ensures
        match eval_expr_spec(*e, row as int, *w, pubs_view(*pubs)) {
            Some(v) => r matches Some(f) && f.val() == v && f.is_canonical(),
            None => r is None,
        },
    decreases *e,
{
    match e {
        Expr::Constant(f) => Some(f.add(Felt::zero())),
        Expr::Query { column, rotation } => {
            let t = row as i64 + *rotation as i64;
            if t < 0 || t >= w.n_rows as i64 {
                return None;
            }
            let r = lookup_cell(w, pubs, *column, t as usize);
            proof {
                if r is Some {
                    match column.kind {
                        ColumnKind::Advice => {
                            assert(opt_canonical(w.advice_at(column.index as int, t as int)));
                        },
                        ColumnKind::Fixed => {
                            assert(opt_canonical(w.fixed_at(column.index as int, t as int)));
                        },
                        ColumnKind::Instance => {
                            assert(pubs_view(*pubs)[column.index as int][t as int]
                                .is_canonical());
                        },
                    }
                }
            }
            r
        },
        Expr::Sum(a, b) => {
            match (eval_expr(a, row, w, pubs), eval_expr(b, row, w, pubs)) {
                (Some(x), Some(y)) => Some(x.add(y)),
                _ => None,
            }
        },
        Expr::Diff(a, b) => {
            match (eval_expr(a, row, w, pubs), eval_expr(b, row, w, pubs)) {
                (Some(x), Some(y)) => Some(x.sub(y)),
                _ => None,
            }
        },
        Expr::Prod(a, b) => {
            match (eval_expr(a, row, w, pubs), eval_expr(b, row, w, pubs)) {
                (Some(x), Some(y)) => Some(x.mul(y)),
                _ => None,
            }
        },
    }
}

/// One collected reason a witness was rejected.
#[derive(PartialEq, Eq, Clone, Debug)]
pub enum Failure {
    /// A gate, named by its index in the constraint system's gate list, is not
    /// satisfied at this row: a queried cell is out of the row range or
    /// unassigned, or the polynomial is nonzero.
    GateUnsatisfied { gate: usize, row: usize },
    /// Some cell of this copy-constraint equivalence class is unassigned, or
    /// two of its cells hold unequal values.
    CopyConstraintUnsatisfied { cells: Vec<Cell> },
    /// The cell bound to position `index` of instance column `column` holds a
    /// value that differs from the supplied public input, or is unassigned,
    /// or the index is outside the supplied vector.
    PublicInputMismatch { column: usize, index: usize },
}

/// A `Failure`, with the class cells as a sequence.
pub enum FailureV {
    GateUnsatisfied { gate: usize, row: usize },
    CopyConstraintUnsatisfied { cells: Seq<Cell> },
    PublicInputMismatch { column: usize, index: usize },
}

impl View for Failure {
    type V = FailureV;

    open spec fn view(&self) -> FailureV {
        match *self {
            Failure::GateUnsatisfied { gate, row } => FailureV::GateUnsatisfied { gate, row },
            Failure::CopyConstraintUnsatisfied { cells } => FailureV::CopyConstraintUnsatisfied {
                cells: cells@,
            },
            Failure::PublicInputMismatch { column, index } => FailureV::PublicInputMismatch {
                column,
                index,
            },
        }
    }
}

/// The failures a vector holds, as mathematical values.
pub open spec fn fails_view(v: Seq<Failure>) -> Seq<FailureV> {
    v.map_values(|f: Failure| f@)
}

proof fn lemma_fails_view_push(s: Seq<Failure>, f: Failure)
    ensures
        fails_view(s.push(f)) == fails_view(s) + seq![f@],
{
    assert(fails_view(s.push(f)) =~= fails_view(s) + seq![f@]);
}

/// Gate `gi` holds at `row`: with its selector off it contributes no
/// constraint; with it on, its polynomial must evaluate to zero there.
pub open spec fn gate_ok_at(
    cs: ConstraintSystem,
    w: Witness,
    pubs: Seq<Seq<Felt>>,
    gi: int,
    row: int,
) -> bool {
    w.sel_on(cs.gates@[gi].selector.index as int, row) ==> eval_expr_spec(
        cs.gates@[gi].poly,
        row,
        w,
        pubs,
    ) == Some(0int)
}

/// Gate failures at `row` over the first `gi` gates, in declaration order.
pub open spec fn gate_fails_row(
    cs: ConstraintSystem,
    w: Witness,
    pubs: Seq<Seq<Felt>>,
    row: int,
    gi: int,
) -> Seq<FailureV>
    decreases gi,
{
    if gi <= 0 {
        Seq::empty()
    } else {
        gate_fails_row(cs, w, pubs, row, gi - 1) + (if gate_ok_at(cs, w, pubs, gi - 1, row) {
            Seq::<FailureV>::empty()
        } else {
            seq![
                (FailureV::GateUnsatisfied { gate: (gi - 1) as usize, row: row as usize }),
            ]
        })
    }
}

/// Gate failures of rows `[0, row)`, row-major.
pub open spec fn gate_fails_upto(
    cs: ConstraintSystem,
    w: Witness,
    pubs: Seq<Seq<Felt>>,
    row: int,
) -> Seq<FailureV>
    decreases row,
{
    if row <= 0 {
        Seq::empty()
    } else {
        gate_fails_upto(cs, w, pubs, row - 1) + gate_fails_row(
            cs,
            w,
            pubs,
            row - 1,
            cs.gates@.len() as int,
        )
    }
}

/// All gate failures of the circuit.
pub open spec fn gate_failures(cs: ConstraintSystem, w: Witness, pubs: Seq<Seq<Felt>>) -> Seq<
    FailureV,
> {
    gate_fails_upto(cs, w, pubs, w.n_rows as int)
}

proof fn lemma_gate_fails_row_empty(
    cs: ConstraintSystem,
    w: Witness,
    pubs: Seq<Seq<Felt>>,
    row: int,
    gi: int,
)
    ensures
        gate_fails_row(cs, w, pubs, row, gi).len() == 0 <==> forall|g: int|
            0 <= g < gi ==> #[trigger] gate_ok_at(cs, w, pubs, g, row),
    decreases gi,
{
    if gi > 0 {
        lemma_gate_fails_row_empty(cs, w, pubs, row, gi - 1);
    }
}

/// No gate failure was collected exactly when every gate holds at every row.
pub proof fn lemma_gate_fails_upto_empty(
    cs: ConstraintSystem,
    w: Witness,
    pubs: Seq<Seq<Felt>>,
    row: int,
)
    ensures
        gate_fails_upto(cs, w, pubs, row).len() == 0 <==> forall|g: int, r: int|
            0 <= g < cs.gates@.len() && 0 <= r < row ==> #[trigger] gate_ok_at(cs, w, pubs, g, r),
    decreases row,
{
    if row > 0 {
        lemma_gate_fails_upto_empty(cs, w, pubs, row - 1);
        lemma_gate_fails_row_empty(cs, w, pubs, row - 1, cs.gates@.len() as int);
    }
}

/// The bound cell holds exactly the supplied public input.
pub open spec fn binding_ok(w: Witness, pubs: Seq<Seq<Felt>>, b: InstanceBinding) -> bool {
    &&& b.column.index < pubs.len()
    &&& b.index < pubs[b.column.index as int].len()
    &&& cell_value(w, pubs, b.cell.column, b.cell.row as int) == Some(
        pubs[b.column.index as int][b.index as int],
    )
}

/// The binding failures over the first `n` bindings, in recording order.
pub open spec fn binding_fails_upto(
    bs: Seq<InstanceBinding>,
    w: Witness,
    pubs: Seq<Seq<Felt>>,
    n: int,
) -> Seq<FailureV>
    decreases n,
{
    if n <= 0 {
        Seq::empty()
    } else {
        binding_fails_upto(bs, w, pubs, n - 1) + (if binding_ok(w, pubs, bs[n - 1]) {
            Seq::<FailureV>::empty()
        } else {
            seq![
                (FailureV::PublicInputMismatch {
                    column: bs[n - 1].column.index,
                    index: bs[n - 1].index,
                }),
            ]
        })
    }
}

/// All public-input binding failures.
pub open spec fn binding_failures(bs: Seq<InstanceBinding>, w: Witness, pubs: Seq<Seq<Felt>>) -> Seq<
    FailureV,
> {
    binding_fails_upto(bs, w, pubs, bs.len() as int)
}

/// No binding failure was collected exactly when every binding holds.
pub proof fn lemma_binding_fails_upto_empty(
    bs: Seq<InstanceBinding>,
    w: Witness,
    pubs: Seq<Seq<Felt>>,
    n: int,
)
    ensures
        binding_fails_upto(bs, w, pubs, n).len() == 0 <==> forall|i: int|
            0 <= i < n ==> binding_ok(w, pubs, #[trigger] bs[i]),
    decreases n,
{
    if n > 0 {
        lemma_binding_fails_upto_empty(bs, w, pubs, n - 1);
    }
}

/// With exactly one binding violated, the binding failures are exactly one
/// `PublicInputMismatch` naming it.
pub proof fn lemma_binding_failures_single(
    bs: Seq<InstanceBinding>,
    w: Witness,
    pubs: Seq<Seq<Felt>>,
    j: int,
)
    requires
        0 <= j < bs.len(),
        !binding_ok(w, pubs, bs[j]),
        forall|i: int| 0 <= i < bs.len() && i != j ==> binding_ok(w, pubs, #[trigger] bs[i]),
    ensures
        binding_failures(bs, w, pubs) == seq![
            (FailureV::PublicInputMismatch { column: bs[j].column.index, index: bs[j].index }),
        ],
{
    lemma_binding_fails_single_upto(bs, w, pubs, j, bs.len() as int);
}

proof fn lemma_binding_fails_single_upto(
    bs: Seq<InstanceBinding>,
    w: Witness,
    pubs: Seq<Seq<Felt>>,
    j: int,
    n: int,
)
    requires
        0 <= j < bs.len(),
        n <= bs.len(),
        !binding_ok(w, pubs, bs[j]),
        forall|i: int| 0 <= i < bs.len() && i != j ==> binding_ok(w, pubs, #[trigger] bs[i]),
    ensures
        n <= j ==> binding_fails_upto(bs, w, pubs, n) == Seq::<FailureV>::empty(),
        n > j ==> binding_fails_upto(bs, w, pubs, n) == seq![
            (FailureV::PublicInputMismatch { column: bs[j].column.index, index: bs[j].index }),
        ],
    decreases n,
{
    if n > 0 {
        lemma_binding_fails_single_upto(bs, w, pubs, j, n - 1);
        if n - 1 < j {
            assert(binding_fails_upto(bs, w, pubs, n) =~= Seq::<FailureV>::empty());
        } else if n - 1 == j {
            assert(binding_fails_upto(bs, w, pubs, n) =~= seq![
                (FailureV::PublicInputMismatch { column: bs[j].column.index, index: bs[j].index }),
            ]);
        } else {
            assert(binding_fails_upto(bs, w, pubs, n) =~= seq![
                (FailureV::PublicInputMismatch { column: bs[j].column.index, index: bs[j].index }),
            ]);
        }
    }
}

/// The classes a vector of cell vectors holds, as mathematical values.
pub open spec fn cls_view(v: Vec<Vec<Cell>>) -> Seq<Seq<Cell>> {
    v@.map_values(|x: Vec<Cell>| x@)
}

/// The index of the first class at or after `i` containing `c`; the number of
/// classes when none does.
pub open spec fn find_class_from(classes: Seq<Seq<Cell>>, c: Cell, i: int) -> int
    decreases classes.len() - i,
{
    if i < 0 || i >= classes.len() {
        classes.len() as int
    } else if classes[i].contains(c) {
        i
    } else {
        find_class_from(classes, c, i + 1)
    }
}

/// The index of the first class containing `c`, or the number of classes.
pub open spec fn find_class(classes: Seq<Seq<Cell>>, c: Cell) -> int {
    find_class_from(classes, c, 0)
}

proof fn lemma_find_class_skip(classes: Seq<Seq<Cell>>, c: Cell, i: int)
    requires
        0 <= i <= classes.len(),
        forall|j: int| 0 <= j < i ==> !(#[trigger] classes[j]).contains(c),
    ensures
        find_class(classes, c) == find_class_from(classes, c, i),
    decreases i,
{
    if i > 0 {
        lemma_find_class_skip(classes, c, i - 1);
    }
}

/// Folds one recorded pair into the classes: unseen cells start fresh, and
/// two distinct classes bridged by the pair merge into one.
pub open spec fn step_classes(classes: Seq<Seq<Cell>>, a: Cell, b: Cell) -> Seq<Seq<Cell>> {
    let n = classes.len() as int;
    let ia = find_class(classes, a);
    let ib = find_class(classes, b);
    if ia == n && ib == n {
        classes.push(seq![a, b])
    } else if ia < n && ib == n {
        classes.update(ia, classes[ia].push(b))
    } else if ia == n && ib < n {
        classes.update(ib, classes[ib].push(a))
    } else if ia == ib {
        classes
    } else {
        classes.update(ia, classes[ia] + classes[ib]).remove(ib)
    }
}

/// The classes after folding the first `n` recorded pairs.
pub open spec fn classes_upto(pairs: Seq<(Cell, Cell)>, n: int) -> Seq<Seq<Cell>>
    decreases n,
{
    if n <= 0 {
        Seq::empty()
    } else {
        step_classes(classes_upto(pairs, n - 1), pairs[n - 1].0, pairs[n - 1].1)
    }
}

/// The equivalence classes the recorded copy constraints generate: two cells
/// share a class exactly when a chain of recorded pairs links them.
pub open spec fn copy_classes(pairs: Seq<(Cell, Cell)>) -> Seq<Seq<Cell>> {
    classes_upto(pairs, pairs.len() as int)
}

/// All cells of the class are assigned, with one common value.
pub open spec fn class_ok(class: Seq<Cell>, w: Witness, pubs: Seq<Seq<Felt>>) -> bool {
    &&& forall|i: int|
        0 <= i < class.len() ==> cell_value(
            w,
            pubs,
            (#[trigger] class[i]).column,
            class[i].row as int,
        ) is Some
    &&& forall|i: int, j: int|
        0 <= i < class.len() && 0 <= j < class.len() ==> cell_value(
            w,
            pubs,
            (#[trigger] class[i]).column,
            class[i].row as int,
        ) == cell_value(w, pubs, (#[trigger] class[j]).column, class[j].row as int)
}

/// The copy failures over the first `n` classes, one per violated class.
pub open spec fn copy_fails_upto(
    classes: Seq<Seq<Cell>>,
    w: Witness,
    pubs: Seq<Seq<Felt>>,
    n: int,
) -> Seq<FailureV>
    decreases n,
{
    if n <= 0 {
        Seq::empty()
    } else {
        copy_fails_upto(classes, w, pubs, n - 1) + (if class_ok(classes[n - 1], w, pubs) {
            Seq::<FailureV>::empty()
        } else {
            seq![(FailureV::CopyConstraintUnsatisfied { cells: classes[n - 1] })]
        })
    }
}

/// All copy-constraint failures of the recorded pairs.
pub open spec fn copy_failures(pairs: Seq<(Cell, Cell)>, w: Witness, pubs: Seq<Seq<Felt>>) -> Seq<
    FailureV,
> {
    copy_fails_upto(copy_classes(pairs), w, pubs, copy_classes(pairs).len() as int)
}

/// No copy failure was collected exactly when every class is uniform.
pub proof fn lemma_copy_fails_upto_empty(
    classes: Seq<Seq<Cell>>,
    w: Witness,
    pubs: Seq<Seq<Felt>>,
    n: int,
)
    ensures
        copy_fails_upto(classes, w, pubs, n).len() == 0 <==> forall|i: int|
            0 <= i < n ==> class_ok(#[trigger] classes[i], w, pubs),
    decreases n,
{
    if n > 0 {
        lemma_copy_fails_upto_empty(classes, w, pubs, n - 1);
    }
}

/// Whether a class holds the cell.
fn class_contains(class: &Vec<Cell>, c: Cell) -> (r: bool)
    ensures
        r == class@.contains(c),
{
    let mut i: usize = 0;
    while i < class.len()
        invariant
            i <= class@.len(),
            forall|j: int| 0 <= j < i ==> class@[j] != c,
        decreases class@.len() - i,
    {
        if class[i] == c {
            return true;
        }
        i = i + 1;
    }
    assert(!class@.contains(c));
    false
}

/// The first class containing the cell, as `find_class` describes.
fn find_class_exec(classes: &Vec<Vec<Cell>>, c: Cell) -> (r: usize)
    ensures
        r as int == find_class(cls_view(*classes), c),
        r <= classes@.len(),
{
    let mut i: usize = 0;
    while i < classes.len()
        invariant
            i <= classes@.len(),
            forall|j: int| 0 <= j < i ==> !(#[trigger] cls_view(*classes)[j]).contains(c),
        decreases classes@.len() - i,
    {
        if class_contains(&classes[i], c) {
            proof {
                lemma_find_class_skip(cls_view(*classes), c, i as int);
            }
            return i;
        }
        i = i + 1;
    }
    proof {
        lemma_find_class_skip(cls_view(*classes), c, i as int);
    }
    i
}

/// A copy of the cells of a class.
fn clone_cells(v: &Vec<Cell>) -> (r: Vec<Cell>)
    ensures
        r@ == v@,
{
    let mut r: Vec<Cell> = Vec::new();
    let mut i: usize = 0;
    while i < v.len()
        invariant
            i <= v@.len(),
            r@ == v@.subrange(0, i as int),
        decreases v@.len() - i,
    {
        r.push(v[i]);
        proof {
            assert(r@ =~= v@.subrange(0, i + 1 as int));
        }
        i = i + 1;
    }
    proof {
        assert(r@ =~= v@);
    }
    r
}

/// Folds one recorded pair into the classes, as `step_classes` describes.
fn apply_pair(classes: &mut Vec<Vec<Cell>>, a: Cell, b: Cell)
    ensures
        cls_view(*final(classes)) == step_classes(cls_view(*old(classes)), a, b),
{
    let n = classes.len();
    let ia = find_class_exec(classes, a);
    let ib = find_class_exec(classes, b);
    if ia == n && ib == n {
        let mut fresh: Vec<Cell> = Vec::new();
        fresh.push(a);
        fresh.push(b);
        proof {
            assert(fresh@ =~= seq![a, b]);
        }
        classes.push(fresh);
        proof {
            assert(cls_view(*classes) =~= step_classes(cls_view(*old(classes)), a, b));
        }
    } else if ia < n && ib == n {
        let col = &mut classes[ia];
        col.push(b);
        proof {
            assert(cls_view(*classes) =~= step_classes(cls_view(*old(classes)), a, b));
        }
    } else if ia == n && ib < n {
        let col = &mut classes[ib];
        col.push(a);
        proof {
            assert(cls_view(*classes) =~= step_classes(cls_view(*old(classes)), a, b));
        }
    } else if ia == ib {
    } else {
        let mut merged = clone_cells(&classes[ia]);
        let mut j: usize = 0;
        let ghost ca = cls_view(*classes)[ia as int];
        let ghost cb = cls_view(*classes)[ib as int];
        while j < classes[ib].len()
            invariant
                0 <= ib < classes@.len(),
                j <= cb.len(),
                cls_view(*classes)[ib as int] == cb,
                merged@ == ca + cb.subrange(0, j as int),
            decreases cb.len() - j,
        {
            let cell = classes[ib][j];
            merged.push(cell);
            proof {
                assert(merged@ =~= ca + cb.subrange(0, j + 1 as int));
            }
            j = j + 1;
        }
        proof {
            assert(merged@ =~= ca + cb);
        }
        classes.set(ia, merged);
        classes.remove(ib);
        proof {
            assert(cls_view(*classes) =~= step_classes(cls_view(*old(classes)), a, b));
        }
    }
}

/// Builds the equivalence classes of the recorded pairs.
fn build_classes(copies: &Vec<(Cell, Cell)>) -> (r: Vec<Vec<Cell>>)
    ensures
        cls_view(r) == copy_classes(copies@),
{
    let mut classes: Vec<Vec<Cell>> = Vec::new();
    let mut i: usize = 0;
    proof {
        assert(cls_view(classes) =~= Seq::<Seq<Cell>>::empty());
    }
    while i < copies.len()
        invariant
            i <= copies@.len(),
            cls_view(classes) == classes_upto(copies@, i as int),
        decreases copies@.len() - i,
    {
        let pair = copies[i];
        apply_pair(&mut classes, pair.0, pair.1);
        i = i + 1;
    }
    classes
}

/// Whether all cells of the class are assigned one common value.
fn class_satisfied(class: &Vec<Cell>, w: &Witness, pubs: &Vec<Vec<Felt>>) -> (r: bool)
    requires
        w.internal_wf(),
    ensures
        r == class_ok(class@, *w, pubs_view(*pubs)),
{
    if class.len() == 0 {
        return true;
    }
    let first = lookup_cell(w, pubs, class[0].column, class[0].row);
    let f0 = match first {
        Some(f) => f,
        None => {
            return false;
        },
    };
    let mut i: usize = 0;
    while i < class.len()
        invariant
            i <= class@.len(),
            class@.len() > 0,
            w.internal_wf(),
            cell_value(*w, pubs_view(*pubs), class@[0].column, class@[0].row as int) == Some(f0),
            forall|j: int|
                0 <= j < i ==> cell_value(
                    *w,
                    pubs_view(*pubs),
                    (#[trigger] class@[j]).column,
                    class@[j].row as int,
                ) == Some(f0),
        decreases class@.len() - i,
    {
        match lookup_cell(w, pubs, class[i].column, class[i].row) {
            Some(f) => {
                if !(f == f0) {
                    return false;
                }
            },
            None => {
                return false;
            },
        }
        i = i + 1;
    }
    true
}

/// One recorded copy pair holds: both cells assigned, with equal values.
pub open spec fn pair_ok(w: Witness, pubs: Seq<Seq<Felt>>, pr: (Cell, Cell)) -> bool {
    &&& cell_value(w, pubs, pr.0.column, pr.0.row as int) is Some
    &&& cell_value(w, pubs, pr.0.column, pr.0.row as int) == cell_value(
        w,
        pubs,
        pr.1.column,
        pr.1.row as int,
    )
}

/// Every recorded copy pair holds.
pub open spec fn pairs_ok(w: Witness, pubs: Seq<Seq<Felt>>, pairs: Seq<(Cell, Cell)>) -> bool {
    forall|i: int| 0 <= i < pairs.len() ==> pair_ok(w, pubs, #[trigger] pairs[i])
}

/// Some class holds both cells.
pub open spec fn in_same_class(classes: Seq<Seq<Cell>>, x: Cell, y: Cell) -> bool {
    exists|i: int|
        0 <= i < classes.len() && (#[trigger] classes[i]).contains(x) && classes[i].contains(y)
}

proof fn lemma_find_from_props(classes: Seq<Seq<Cell>>, c: Cell, i: int)
    requires
        0 <= i <= classes.len(),
    ensures
        i <= find_class_from(classes, c, i) <= classes.len(),
        find_class_from(classes, c, i) < classes.len() ==> classes[find_class_from(
            classes,
            c,
            i,
        )].contains(c),
    decreases classes.len() - i,
{
    if i < classes.len() && !classes[i].contains(c) {
        lemma_find_from_props(classes, c, i + 1);
    }
}

proof fn lemma_step_preserves_class_ok(
    classes: Seq<Seq<Cell>>,
    a: Cell,
    b: Cell,
    w: Witness,
    pubs: Seq<Seq<Felt>>,
)
    requires
        forall|i: int| 0 <= i < classes.len() ==> class_ok(#[trigger] classes[i], w, pubs),
        pair_ok(w, pubs, (a, b)),
    ensures
        forall|i: int|
            0 <= i < step_classes(classes, a, b).len() ==> class_ok(
                #[trigger] step_classes(classes, a, b)[i],
                w,
                pubs,
            ),
{
    lemma_find_from_props(classes, a, 0);
    lemma_find_from_props(classes, b, 0);
    let n = classes.len() as int;
    let ia = find_class(classes, a);
    let ib = find_class(classes, b);
    let stepped = step_classes(classes, a, b);
    assert forall|i: int| 0 <= i < stepped.len() implies class_ok(#[trigger] stepped[i], w, pubs) by {
        if ia == n && ib == n {
            if i < n {
                assert(stepped[i] == classes[i]);
            } else {
                assert(stepped[i] =~= seq![a, b]);
            }
        } else if ia < n && ib == n {
            if i != ia {
                assert(stepped[i] == classes[i]);
            } else {
                let ca = classes[ia];
                let ka = choose|k: int| 0 <= k < ca.len() && ca[k] == a;
                assert(class_ok(ca, w, pubs));
                assert(stepped[i] == ca.push(b));
            }
        } else if ia == n && ib < n {
            if i != ib {
                assert(stepped[i] == classes[i]);
            } else {
                let cb = classes[ib];
                let kb = choose|k: int| 0 <= k < cb.len() && cb[k] == b;
                assert(class_ok(cb, w, pubs));
                assert(stepped[i] == cb.push(a));
            }
        } else if ia == ib {
            assert(stepped[i] == classes[i]);
        } else {
            let ca = classes[ia];
            let cb = classes[ib];
            let merged = ca + cb;
            let updated = classes.update(ia, merged);
            let ka = choose|k: int| 0 <= k < ca.len() && ca[k] == a;
            let kb = choose|k: int| 0 <= k < cb.len() && cb[k] == b;
            assert(class_ok(ca, w, pubs));
            assert(class_ok(cb, w, pubs));
            assert(class_ok(merged, w, pubs)) by {
                assert forall|p: int, q: int|
                    0 <= p < merged.len() && 0 <= q < merged.len() implies cell_value(
                    w,
                    pubs,
                    (#[trigger] merged[p]).column,
                    merged[p].row as int,
                ) == cell_value(w, pubs, (#[trigger] merged[q]).column, merged[q].row as int) by {
                    assert(cell_value(w, pubs, ca[ka].column, ca[ka].row as int) == cell_value(
                        w,
                        pubs,
                        cb[kb].column,
                        cb[kb].row as int,
                    ));
                }
            }
            if stepped[i] == merged {
            } else {
                let j = if i < ib {
                    i
                } else {
                    i + 1
                };
                assert(stepped[i] == updated[j]);
            }
        }
    }
}

proof fn lemma_classes_upto_ok(pairs: Seq<(Cell, Cell)>, w: Witness, pubs: Seq<Seq<Felt>>, n: int)
    requires
        0 <= n <= pairs.len(),
        pairs_ok(w, pubs, pairs),
    ensures
        forall|i: int|
            0 <= i < classes_upto(pairs, n).len() ==> class_ok(
                #[trigger] classes_upto(pairs, n)[i],
                w,
                pubs,
            ),
    decreases n,
{
    if n > 0 {
        lemma_classes_upto_ok(pairs, w, pubs, n - 1);
        assert(pair_ok(w, pubs, pairs[n - 1]));
        lemma_step_preserves_class_ok(classes_upto(pairs, n - 1), pairs[n - 1].0, pairs[n - 1].1,
            w, pubs);
    }
}

proof fn lemma_step_gives_same_class(classes: Seq<Seq<Cell>>, a: Cell, b: Cell)
    ensures
        in_same_class(step_classes(classes, a, b), a, b),
{
    lemma_find_from_props(classes, a, 0);
    lemma_find_from_props(classes, b, 0);
    let n = classes.len() as int;
    let ia = find_class(classes, a);
    let ib = find_class(classes, b);
    let stepped = step_classes(classes, a, b);
    if ia == n && ib == n {
        assert(stepped[n].contains(a) && stepped[n].contains(b)) by {
            assert(stepped[n] == seq![a, b]);
            assert(stepped[n][0] == a && stepped[n][1] == b);
        }
    } else if ia < n && ib == n {
        assert(stepped[ia].contains(a) && stepped[ia].contains(b)) by {
            let ca = classes[ia];
            let ka = choose|k: int| 0 <= k < ca.len() && ca[k] == a;
            assert(stepped[ia] == ca.push(b));
            assert(stepped[ia][ka] == a);
            assert(stepped[ia][ca.len() as int] == b);
        }
    } else if ia == n && ib < n {
        assert(stepped[ib].contains(a) && stepped[ib].contains(b)) by {
            let cb = classes[ib];
            let kb = choose|k: int| 0 <= k < cb.len() && cb[k] == b;
            assert(stepped[ib] == cb.push(a));
            assert(stepped[ib][kb] == b);
            assert(stepped[ib][cb.len() as int] == a);
        }
    } else if ia == ib {
        assert(stepped[ia].contains(a) && stepped[ia].contains(b));
    } else {
        let ca = classes[ia];
        let cb = classes[ib];
        let merged = ca + cb;
        let updated = classes.update(ia, merged);
        let ka = choose|k: int| 0 <= k < ca.len() && ca[k] == a;
        let kb = choose|k: int| 0 <= k < cb.len() && cb[k] == b;
        assert(merged[ka] == a);
        assert(merged[ca.len() + kb] == b);
        let i = if ia < ib {
            ia
        } else {
            ia - 1
        };
        assert(stepped[i] == updated[ia]);
        assert(stepped[i].contains(a) && stepped[i].contains(b));
    }
}

proof fn lemma_step_keeps_same_class(classes: Seq<Seq<Cell>>, p: Cell, q: Cell, x: Cell, y: Cell)
    requires
        in_same_class(classes, x, y),
    ensures
        in_same_class(step_classes(classes, p, q), x, y),
{
    lemma_find_from_props(classes, p, 0);
    lemma_find_from_props(classes, q, 0);
    let n = classes.len() as int;
    let ia = find_class(classes, p);
    let ib = find_class(classes, q);
    let stepped = step_classes(classes, p, q);
    let i = choose|i: int|
        0 <= i < classes.len() && (#[trigger] classes[i]).contains(x) && classes[i].contains(y);
    let kx = choose|k: int| 0 <= k < classes[i].len() && classes[i][k] == x;
    let ky = choose|k: int| 0 <= k < classes[i].len() && classes[i][k] == y;
    if ia == n && ib == n {
        assert(stepped[i] == classes[i]);
        assert(stepped[i].contains(x) && stepped[i].contains(y));
    } else if ia < n && ib == n {
        if i == ia {
            assert(stepped[i] == classes[ia].push(q));
            assert(stepped[i][kx] == x && stepped[i][ky] == y);
        } else {
            assert(stepped[i] == classes[i]);
        }
        assert(stepped[i].contains(x) && stepped[i].contains(y));
    } else if ia == n && ib < n {
        if i == ib {
            assert(stepped[i] == classes[ib].push(p));
            assert(stepped[i][kx] == x && stepped[i][ky] == y);
        } else {
            assert(stepped[i] == classes[i]);
        }
        assert(stepped[i].contains(x) && stepped[i].contains(y));
    } else if ia == ib {
        assert(stepped[i].contains(x) && stepped[i].contains(y));
    } else {
        let ca = classes[ia];
        let cb = classes[ib];
        let merged = ca + cb;
        let updated = classes.update(ia, merged);
        let mi = if ia < ib {
            ia
        } else {
            ia - 1
        };
        if i == ia {
            assert(merged[kx] == x && merged[ky] == y);
            assert(stepped[mi] == updated[ia]);
            assert(stepped[mi].contains(x) && stepped[mi].contains(y));
        } else if i == ib {
            assert(merged[ca.len() + kx] == x && merged[ca.len() + ky] == y);
            assert(stepped[mi] == updated[ia]);
            assert(stepped[mi].contains(x) && stepped[mi].contains(y));
        } else {
            let j = if i < ib {
                i
            } else {
                i - 1
            };
            assert(stepped[j] == updated[i]);
            assert(stepped[j].contains(x) && stepped[j].contains(y));
        }
    }
}

proof fn lemma_pair_in_same_class(pairs: Seq<(Cell, Cell)>, j: int, n: int)
    requires
        0 <= j < n <= pairs.len(),
    ensures
        in_same_class(classes_upto(pairs, n), pairs[j].0, pairs[j].1),
    decreases n,
{
    if n - 1 == j {
        lemma_step_gives_same_class(classes_upto(pairs, n - 1), pairs[j].0, pairs[j].1);
    } else {
        lemma_pair_in_same_class(pairs, j, n - 1);
        lemma_step_keeps_same_class(
            classes_upto(pairs, n - 1),
            pairs[n - 1].0,
            pairs[n - 1].1,
            pairs[j].0,
            pairs[j].1,
        );
    }
}

/// Class-wise copy checking agrees with the recorded pairs: every equivalence
/// class the tracker builds is assigned one common value exactly when every
/// recorded pair is. In particular equality closes transitively: cells never
/// directly paired are still forced equal through their class.
pub proof fn lemma_classes_ok_iff_pairs_ok(
    pairs: Seq<(Cell, Cell)>,
    w: Witness,
    pubs: Seq<Seq<Felt>>,
)
    ensures
        classes_ok(pairs, w, pubs) <==> pairs_ok(w, pubs, pairs),
{
    if pairs_ok(w, pubs, pairs) {
        lemma_classes_upto_ok(pairs, w, pubs, pairs.len() as int);
    }
    if classes_ok(pairs, w, pubs) {
        assert forall|j: int| 0 <= j < pairs.len() implies pair_ok(w, pubs, #[trigger] pairs[j]) by {
            lemma_pair_in_same_class(pairs, j, pairs.len() as int);
            let classes = copy_classes(pairs);
            let i = choose|i: int|
                0 <= i < classes.len() && (#[trigger] classes[i]).contains(pairs[j].0)
                    && classes[i].contains(pairs[j].1);
            let ka = choose|k: int| 0 <= k < classes[i].len() && classes[i][k] == pairs[j].0;
            let kb = choose|k: int| 0 <= k < classes[i].len() && classes[i][k] == pairs[j].1;
            assert(class_ok(classes[i], w, pubs));
            assert(cell_value(w, pubs, classes[i][ka].column, classes[i][ka].row as int)
                is Some);
            assert(cell_value(w, pubs, classes[i][ka].column, classes[i][ka].row as int)
                == cell_value(w, pubs, classes[i][kb].column, classes[i][kb].row as int));
        }
    }
}

/// Whether a field element is the additive identity.
fn felt_is_zero(f: &Felt) -> (r: bool)
    ensures
        r <==> f.val() == 0,
{
    f.limb0 == 0 && f.limb1 == 0 && f.limb2 == 0 && f.limb3 == 0
}

/// Every gate holds at every row.
pub open spec fn gates_ok(cs: ConstraintSystem, w: Witness, pubs: Seq<Seq<Felt>>) -> bool {
    forall|g: int, r: int|
        0 <= g < cs.gates@.len() && 0 <= r < w.n_rows ==> #[trigger] gate_ok_at(cs, w, pubs, g, r)
}

/// Every copy-constraint equivalence class is assigned one common value.
pub open spec fn classes_ok(pairs: Seq<(Cell, Cell)>, w: Witness, pubs: Seq<Seq<Felt>>) -> bool {
    forall|i: int|
        0 <= i < copy_classes(pairs).len() ==> class_ok(#[trigger] copy_classes(pairs)[i], w, pubs)
}

/// Every public-input binding holds.
pub open spec fn bindings_ok(bs: Seq<InstanceBinding>, w: Witness, pubs: Seq<Seq<Felt>>) -> bool {
    forall|i: int| 0 <= i < bs.len() ==> binding_ok(w, pubs, #[trigger] bs[i])
}

/// The witness satisfies every constraint of the circuit for these public
/// inputs.
pub open spec fn spec_satisfied(f: Frozen, pubs: Seq<Seq<Felt>>) -> bool {
    &&& gates_ok(f.cs, f.witness, pubs)
    &&& classes_ok(f.copies@, f.witness, pubs)
    &&& bindings_ok(f.bindings@, f.witness, pubs)
}

/// Everything the checker reports, in order: gate failures row-major, then
/// violated copy classes, then binding failures.
pub open spec fn all_failures(f: Frozen, pubs: Seq<Seq<Felt>>) -> Seq<FailureV> {
    gate_failures(f.cs, f.witness, pubs) + copy_failures(f.copies@, f.witness, pubs)
        + binding_failures(f.bindings@, f.witness, pubs)
}

/// What `check` returns: Accept when nothing failed, otherwise all failures.
pub open spec fn check_spec(f: Frozen, pubs: Seq<Seq<Felt>>) -> OutcomeV {
    if all_failures(f, pubs).len() == 0 {
        OutcomeV::Accept
    } else {
        OutcomeV::Reject(all_failures(f, pubs))
    }
}

/// The checker's verdict.
#[derive(PartialEq, Eq, Clone, Debug)]
pub enum CheckOutcome {
    Accept,
    Reject(Vec<Failure>),
}

/// A `CheckOutcome`, with the failures as a sequence.
pub enum OutcomeV {
    Accept,
    Reject(Seq<FailureV>),
}

impl View for CheckOutcome {
    type V = OutcomeV;

    open spec fn view(&self) -> OutcomeV {
        match self {
            CheckOutcome::Accept => OutcomeV::Accept,
            CheckOutcome::Reject(v) => OutcomeV::Reject(fails_view(v@)),
        }
    }
}

#[verifier::loop_isolation(false)]
fn collect_gate_failures(
    cs: &ConstraintSystem,
    w: &Witness,
    pubs: &Vec<Vec<Felt>>,
    out: &mut Vec<Failure>,
)
    requires
        cs.wf(),
        w.wf(*cs),
        w.n_rows <= 0x4000_0000,
        pubs_canonical(pubs_view(*pubs)),
    ensures
        fails_view(final(out)@) == fails_view(old(out)@) + gate_failures(
            *cs,
            *w,
            pubs_view(*pubs),
        ),
{
    let ghost base = fails_view(old(out)@);
    let mut row: usize = 0;
    while row < w.n_rows
        invariant
            row <= w.n_rows,
            fails_view(out@) == base + gate_fails_upto(*cs, *w, pubs_view(*pubs), row as int),
        decreases w.n_rows - row,
    {
        let mut gi: usize = 0;
        while gi < cs.gates.len()
            invariant
                gi <= cs.gates@.len(),
                row < w.n_rows,
                fails_view(out@) == base + gate_fails_upto(*cs, *w, pubs_view(*pubs), row as int)
                    + gate_fails_row(*cs, *w, pubs_view(*pubs), row as int, gi as int),
            decreases cs.gates@.len() - gi,
        {
            assert(cs.wf_gate_at(gi as int));
            let sel = cs.gates[gi].selector;
            let mut bad = false;
            if w.selectors[sel.index][row] {
                match eval_expr(&cs.gates[gi].poly, row, w, pubs) {
                    Some(f) => {
                        if !felt_is_zero(&f) {
                            bad = true;
                        }
                    },
                    None => {
                        bad = true;
                    },
                }
            }
            if bad {
                let ghost prev = out@;
                out.push(Failure::GateUnsatisfied { gate: gi, row });
                proof {
                    lemma_fails_view_push(prev, Failure::GateUnsatisfied { gate: gi, row });
                }
            }
            proof {
                let pv = pubs_view(*pubs);
                if bad {
                    assert(!gate_ok_at(*cs, *w, pv, gi as int, row as int));
                } else {
                    assert(gate_ok_at(*cs, *w, pv, gi as int, row as int));
                }
                assert(fails_view(out@) =~= base + gate_fails_upto(*cs, *w, pv, row as int)
                    + gate_fails_row(*cs, *w, pv, row as int, (gi + 1) as int));
            }
            gi = gi + 1;
        }
        proof {
            assert(fails_view(out@) =~= base + gate_fails_upto(
                *cs,
                *w,
                pubs_view(*pubs),
                (row + 1) as int,
            ));
        }
        row = row + 1;
    }
}

#[verifier::loop_isolation(false)]
fn collect_copy_failures(
    classes: &Vec<Vec<Cell>>,
    w: &Witness,
    pubs: &Vec<Vec<Felt>>,
    out: &mut Vec<Failure>,
)
    requires
        w.internal_wf(),
    ensures
        fails_view(final(out)@) == fails_view(old(out)@) + copy_fails_upto(
            cls_view(*classes),
            *w,
            pubs_view(*pubs),
            cls_view(*classes).len() as int,
        ),
{
    let ghost base = fails_view(old(out)@);
    let mut i: usize = 0;
    while i < classes.len()
        invariant
            i <= classes@.len(),
            fails_view(out@) == base + copy_fails_upto(
                cls_view(*classes),
                *w,
                pubs_view(*pubs),
                i as int,
            ),
        decreases classes@.len() - i,
    {
        if !class_satisfied(&classes[i], w, pubs) {
            let cells = clone_cells(&classes[i]);
            let ghost prev = out@;
            out.push(Failure::CopyConstraintUnsatisfied { cells });
            proof {
                lemma_fails_view_push(prev, out@.last());
                assert(out@ == prev.push(out@.last()));
            }
        }
        proof {
            assert(fails_view(out@) =~= base + copy_fails_upto(
                cls_view(*classes),
                *w,
                pubs_view(*pubs),
                (i + 1) as int,
            ));
        }
        i = i + 1;
    }
}

#[verifier::loop_isolation(false)]
fn collect_binding_failures(
    bindings: &Vec<InstanceBinding>,
    w: &Witness,
    pubs: &Vec<Vec<Felt>>,
    out: &mut Vec<Failure>,
)
    requires
        w.internal_wf(),
    ensures
        fails_view(final(out)@) == fails_view(old(out)@) + binding_failures(
            bindings@,
            *w,
            pubs_view(*pubs),
        ),
{
    let ghost base = fails_view(old(out)@);
    let mut i: usize = 0;
    while i < bindings.len()
        invariant
            i <= bindings@.len(),
            fails_view(out@) == base + binding_fails_upto(
                bindings@,
                *w,
                pubs_view(*pubs),
                i as int,
            ),
        decreases bindings@.len() - i,
    {
        let b = bindings[i];
        let mut ok = false;
        if b.column.index < pubs.len() {
            let column = &pubs[b.column.index];
            if b.index < column.len() {
                match lookup_cell(w, pubs, b.cell.column, b.cell.row) {
                    Some(f) => {
                        if f == column[b.index] {
                            ok = true;
                        }
                    },
                    None => {},
                }
            }
        }
        if !ok {
            let ghost prev = out@;
            out.push(Failure::PublicInputMismatch { column: b.column.index, index: b.index });
            proof {
                lemma_fails_view_push(
                    prev,
                    Failure::PublicInputMismatch { column: b.column.index, index: b.index },
                );
            }
        }
        proof {
            let pv = pubs_view(*pubs);
            if ok {
                assert(binding_ok(*w, pv, bindings@[i as int]));
            } else {
                assert(!binding_ok(*w, pv, bindings@[i as int]));
            }
            assert(fails_view(out@) =~= base + binding_fails_upto(
                bindings@,
                *w,
                pv,
                (i + 1) as int,
            ));
        }
        i = i + 1;
    }
}

/// Decides whether the frozen witness satisfies the circuit for the supplied
/// public inputs. Accept exactly when every gate holds at every row, every
/// copy-constraint class is assigned one common value, and every binding
/// matches its public input; otherwise Reject carries every failure, in
/// order, never just the first.
pub fn check(frozen: &Frozen, public_inputs: &Vec<Vec<Felt>>) -> (r: CheckOutcome)
    requires
        frozen.wf(),
        pubs_canonical(pubs_view(*public_inputs)),
    ensures
        r@ == check_spec(*frozen, pubs_view(*public_inputs)),
        r is Accept <==> spec_satisfied(*frozen, pubs_view(*public_inputs)),
        r is Accept <==> (gates_ok(frozen.cs, frozen.witness, pubs_view(*public_inputs))
            && pairs_ok(frozen.witness, pubs_view(*public_inputs), frozen.copies@)
            && bindings_ok(frozen.bindings@, frozen.witness, pubs_view(*public_inputs))),
{
    let ghost pv = pubs_view(*public_inputs);
    let mut out: Vec<Failure> = Vec::new();
    proof {
        assert(fails_view(out@) =~= Seq::<FailureV>::empty());
    }
    collect_gate_failures(&frozen.cs, &frozen.witness, public_inputs, &mut out);
    let classes = build_classes(&frozen.copies);
    collect_copy_failures(&classes, &frozen.witness, public_inputs, &mut out);
    collect_binding_failures(&frozen.bindings, &frozen.witness, public_inputs, &mut out);
    proof {
        assert(fails_view(out@) =~= all_failures(*frozen, pv));
        lemma_gate_fails_upto_empty(frozen.cs, frozen.witness, pv, frozen.witness.n_rows as int);
        lemma_copy_fails_upto_empty(
            copy_classes(frozen.copies@),
            frozen.witness,
            pv,
            copy_classes(frozen.copies@).len() as int,
        );
        lemma_binding_fails_upto_empty(frozen.bindings@, frozen.witness, pv,
            frozen.bindings@.len() as int);
        lemma_classes_ok_iff_pairs_ok(frozen.copies@, frozen.witness, pv);
    }
    if out.len() == 0 {
        CheckOutcome::Accept
    } else {
        CheckOutcome::Reject(out)
    }
}

/// A witness that satisfies every gate and every copy constraint, but whose
/// public inputs are altered so that exactly one binding is violated, is
/// rejected with exactly one failure: a `PublicInputMismatch` naming that
/// binding.
pub proof fn lemma_single_mismatch_rejects(f: Frozen, pubs: Seq<Seq<Felt>>, j: int)
    requires
        gates_ok(f.cs, f.witness, pubs),
        classes_ok(f.copies@, f.witness, pubs),
        0 <= j < f.bindings@.len(),
        !binding_ok(f.witness, pubs, f.bindings@[j]),
        forall|i: int|
            0 <= i < f.bindings@.len() && i != j ==> binding_ok(
                f.witness,
                pubs,
                #[trigger] f.bindings@[i],
            ),
    ensures
        check_spec(f, pubs) == OutcomeV::Reject(
            seq![
                (FailureV::PublicInputMismatch {
                    column: f.bindings@[j].column.index,
                    index: f.bindings@[j].index,
                }),
            ],
        ),
{
    lemma_gate_fails_upto_empty(f.cs, f.witness, pubs, f.witness.n_rows as int);
    lemma_copy_fails_upto_empty(
        copy_classes(f.copies@),
        f.witness,
        pubs,
        copy_classes(f.copies@).len() as int,
    );
    lemma_binding_failures_single(f.bindings@, f.witness, pubs, j);
    assert(all_failures(f, pubs) =~= seq![
        (FailureV::PublicInputMismatch {
            column: f.bindings@[j].column.index,
            index: f.bindings@[j].index,
        }),
    ]);
}

/// Checking is a function of the frozen inputs alone: two runs on the same
/// frozen system, witness, constraints and public inputs return the same
/// outcome.
pub proof fn lemma_check_deterministic(
    a: CheckOutcome,
    b: CheckOutcome,
    f: Frozen,
    pubs: Seq<Seq<Felt>>,
)
    requires
        a@ == check_spec(f, pubs),
        b@ == check_spec(f, pubs),
    ensures
        a@ == b@,
{
}

} // verus!
