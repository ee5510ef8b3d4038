//! Witness-side evaluation: assigning concrete field values to cells and
//! challenges, evaluating expressions under an assignment, and checking
//! whether accumulated constraints and lookups are satisfied.

use vstd::prelude::*;
use crate::builder::{Constraint, LookupArgument};
use crate::expr::{CellRef, EvalEnv, Expr};
use crate::field::{freduce, Fp};

verus! {

/// A concrete assignment: a value for each cell (by column, then row
/// offset) and for each challenge.
pub struct Assignment {
    pub cells: Vec<Vec<Fp>>,
    pub challenges: Vec<Fp>,
}

impl Assignment {
    /// The mathematical environment this assignment denotes.
    pub open spec fn env(self) -> EvalEnv {
        EvalEnv {
            cells: Map::new(
                |c: CellRef|
                    c.column < self.cells@.len() && c.rotation < self.cells@[
                        c.column as int
                    ]@.len(),
                |c: CellRef| self.cells@[c.column as int]@[c.rotation as int].v as int,
            ),
            challenges: Map::new(
                |i: int| 0 <= i < self.challenges@.len(),
                |i: int| self.challenges@[i].v as int,
            ),
        }
    }

    /// Whether the assignment gives a value to every leaf of `e`.
    pub open spec fn covers(self, e: Expr) -> bool
        decreases e,
    {
        match e {
            Expr::Const(_) => true,
            Expr::Cell(c) => c.column < self.cells@.len() && c.rotation < self.cells@[
                c.column as int
            ]@.len(),
            Expr::Challenge { index, phase: _ } => index < self.challenges@.len(),
            Expr::Neg(a) => self.covers(*a),
            Expr::Sum(a, b) => self.covers(*a) && self.covers(*b),
            Expr::Product(a, b) => self.covers(*a) && self.covers(*b),
            Expr::Scaled(a, _) => self.covers(*a),
        }
    }

    /// Evaluates an expression under this assignment, faithfully to the
    /// mathematical evaluation `Expr::eval`.
    pub fn eval_expr(&self, e: &Expr) -> (r: Fp)
        requires
            self.covers(*e),
        ensures
            r.v == e.eval(self.env()),
            r.reduced(),
        decreases e,
    {
        match e {
            Expr::Const(c) => c.reduce(),
            Expr::Cell(c) => self.cells[c.column][c.rotation].reduce(),
            Expr::Challenge { index, phase: _ } => self.challenges[*index].reduce(),
            Expr::Neg(a) => self.eval_expr(a).neg(),
            Expr::Sum(a, b) => {
                let x = self.eval_expr(a);
                let y = self.eval_expr(b);
                x.add(y)
            },
            Expr::Product(a, b) => {
                let x = self.eval_expr(a);
                let y = self.eval_expr(b);
                x.mul(y)
            },
            Expr::Scaled(a, k) => self.eval_expr(a).mul(*k),
        }
    }
}

/// Whether every constraint in the list evaluates to zero under the
/// assignment.
pub fn constraints_satisfied(constraints: &Vec<Constraint>, a: &Assignment) -> (r: bool)
    requires
        forall|i: int|
            0 <= i < constraints@.len() ==> a.covers((#[trigger] constraints@[i]).expr),
    ensures
        r <==> (forall|i: int|
            0 <= i < constraints@.len() ==> (#[trigger] constraints@[i]).expr.eval(a.env()) == 0),
{
    let n = constraints.len();
    let mut i: usize = 0;
    while i < n
        invariant
            i <= n,
            n == constraints@.len(),
            forall|j: int|
                0 <= j < constraints@.len() ==> a.covers((#[trigger] constraints@[j]).expr),
            forall|j: int| 0 <= j < i ==> (#[trigger] constraints@[j]).expr.eval(a.env()) == 0,
        decreases n - i,
    {
        let v = a.eval_expr(&constraints[i].expr);
        if v.v != 0 {
            return false;
        }
        i = i + 1;
    }
    true
}

/// Whether `row` is the row the emitted lookup's requested tuple takes
/// under the assignment: same width, and each requested value equals the
/// row's value.
pub open spec fn lookup_row_matches(
    pairs: Seq<(Expr, Expr)>,
    env: EvalEnv,
    row: Seq<Fp>,
) -> bool {
    &&& row.len() == pairs.len()
    &&& forall|j: int|
        0 <= j < pairs.len() ==> (#[trigger] pairs[j]).0.eval(env) == freduce(row[j].v as int)
}

/// Whether the emitted lookup argument's requested tuple matches some row
/// of the given concrete table.
pub fn lookup_argument_satisfied(
    arg: &LookupArgument,
    a: &Assignment,
    rows: &Vec<Vec<Fp>>,
) -> (r: bool)
    requires
        forall|j: int| 0 <= j < arg.pairs@.len() ==> a.covers((#[trigger] arg.pairs@[j]).0),
    ensures
        r <==> (exists|k: int|
            0 <= k < rows@.len() && lookup_row_matches(arg.pairs@, a.env(), (#[trigger] rows@[k])@)),
{
    let nrows = rows.len();
    let mut k: usize = 0;
    while k < nrows
        invariant
            k <= nrows,
            nrows == rows@.len(),
            forall|j: int| 0 <= j < arg.pairs@.len() ==> a.covers((#[trigger] arg.pairs@[j]).0),
            forall|m: int| 0 <= m < k ==> !lookup_row_matches(arg.pairs@, a.env(), (#[trigger] rows@[m])@),
        decreases nrows - k,
    {
        let row = &rows[k];
        if row.len() == arg.pairs.len() {
            let mut j: usize = 0;
            let mut all: bool = true;
            let width = arg.pairs.len();
            while j < width
                invariant
                    j <= width,
                    width == arg.pairs@.len(),
                    row@.len() == arg.pairs@.len(),
                    forall|m: int|
                        0 <= m < arg.pairs@.len() ==> a.covers((#[trigger] arg.pairs@[m]).0),
                    all <==> (forall|m: int|
                        0 <= m < j ==> (#[trigger] arg.pairs@[m]).0.eval(a.env()) == freduce(
                            row@[m].v as int,
                        )),
                decreases width - j,
            {
                let v = a.eval_expr(&arg.pairs[j].0);
                let t = row[j].reduce();
                if v.v != t.v {
                    all = false;
                }
                j = j + 1;
            }
            if all {
                proof {
                    assert(lookup_row_matches(arg.pairs@, a.env(), rows@[k as int]@));
                }
                return true;
            }
        }
        k = k + 1;
    }
    false
}

} // verus!
