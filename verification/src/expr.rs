//! The symbolic expression tree that constraints are written in.
//!
//! An expression is an immutable tree whose leaves are field constants,
//! storage-cell references and challenge scalars, and whose inner nodes are
//! negation, sum, product and scaling by a constant.  Two spec-level views
//! drive every contract in the crate: the polynomial degree `deg` and the
//! field-valued evaluation `eval` under an assignment of leaves.

use vstd::prelude::*;
use crate::field::{Fp, FIELD_MODULUS, fadd, fmul, fneg};

verus! {

/// A reference to one storage slot: a column together with a row offset
/// relative to the current row.
#[derive(Clone, Copy, PartialEq, Eq, Structural, Debug)]
pub struct CellRef {
    pub column: usize,
    pub rotation: usize,
}

/// A symbolic expression over the scalar field.
#[derive(Debug)]
pub enum Expr {
    /// A field constant.
    Const(Fp),
    /// The value held by a storage cell.
    Cell(CellRef),
    /// An externally supplied random challenge scalar, opaque to the
    /// builder; `phase` is the commitment phase after which it is known.
    Challenge { index: usize, phase: usize },
    /// Additive inverse of the operand.
    Neg(Box<Expr>),
    /// Sum of the two operands.
    Sum(Box<Expr>, Box<Expr>),
    /// Product of the two operands.
    Product(Box<Expr>, Box<Expr>),
    /// The operand scaled by a constant.
    Scaled(Box<Expr>, Fp),
}

/// An assignment of values to expression leaves, for stating what an
/// expression evaluates to.
pub struct EvalEnv {
    pub cells: Map<CellRef, int>,
    pub challenges: Map<int, int>,
}

impl Expr {
    /// The polynomial degree: cells count 1, constants and challenges 0,
    /// a sum takes the maximum of its operands, a product their total.
    pub open spec fn deg(self) -> nat
        decreases self,
    {
        match self {
            Expr::Const(_) => 0,
            Expr::Cell(_) => 1,
            Expr::Challenge { .. } => 0,
            Expr::Neg(a) => a.deg(),
            Expr::Sum(a, b) => if a.deg() >= b.deg() {
                a.deg()
            } else {
                b.deg()
            },
            Expr::Product(a, b) => a.deg() + b.deg(),
            Expr::Scaled(a, _) => a.deg(),
        }
    }

    /// The witness-computation phase of the expression: the latest phase of
    /// any challenge it mentions, or 0 when it mentions none.
    pub open spec fn phase(self) -> nat
        decreases self,
    {
        match self {
            Expr::Const(_) => 0,
            Expr::Cell(_) => 0,
            Expr::Challenge { index: _, phase } => phase as nat,
            Expr::Neg(a) => a.phase(),
            Expr::Sum(a, b) => if a.phase() >= b.phase() {
                a.phase()
            } else {
                b.phase()
            },
            Expr::Product(a, b) => if a.phase() >= b.phase() {
                a.phase()
            } else {
                b.phase()
            },
            Expr::Scaled(a, _) => a.phase(),
        }
    }

    /// The value of the expression under `env`, as a canonical residue of
    /// the scalar field.
    pub open spec fn eval(self, env: EvalEnv) -> int
        decreases self,
    {
        match self {
            Expr::Const(c) => c.v as int % (FIELD_MODULUS as int),
            Expr::Cell(c) => env.cells[c] % (FIELD_MODULUS as int),
            Expr::Challenge { index, phase: _ } => env.challenges[index as int] % (
            FIELD_MODULUS as int),
            Expr::Neg(a) => fneg(a.eval(env)),
            Expr::Sum(a, b) => fadd(a.eval(env), b.eval(env)),
            Expr::Product(a, b) => fmul(a.eval(env), b.eval(env)),
            Expr::Scaled(a, k) => fmul(a.eval(env), k.v as int),
        }
    }

    /// The degree, saturating at `usize::MAX` on trees too large to measure.
    pub fn degree(&self) -> (d: usize)
        ensures
            self.deg() <= usize::MAX ==> d == self.deg(),
            self.deg() > usize::MAX ==> d == usize::MAX,
        decreases self,
    {
        match self {
            Expr::Const(_) => 0,
            Expr::Cell(_) => 1,
            Expr::Challenge { .. } => 0,
            Expr::Neg(a) => a.degree(),
            Expr::Sum(a, b) => {
                let da = a.degree();
                let db = b.degree();
                if da >= db {
                    da
                } else {
                    db
                }
            },
            Expr::Product(a, b) => {
                let da = a.degree();
                let db = b.degree();
                if da > usize::MAX - db {
                    usize::MAX
                } else {
                    da + db
                }
            },
            Expr::Scaled(a, _) => a.degree(),
        }
    }

    /// The witness-computation phase of the expression.
    pub fn compute_phase(&self) -> (p: usize)
        ensures
            p == self.phase(),
        decreases self,
    {
        match self {
            Expr::Const(_) => 0,
            Expr::Cell(_) => 0,
            Expr::Challenge { index: _, phase } => *phase,
            Expr::Neg(a) => a.compute_phase(),
            Expr::Sum(a, b) => {
                let pa = a.compute_phase();
                let pb = b.compute_phase();
                if pa >= pb {
                    pa
                } else {
                    pb
                }
            },
            Expr::Product(a, b) => {
                let pa = a.compute_phase();
                let pb = b.compute_phase();
                if pa >= pb {
                    pa
                } else {
                    pb
                }
            },
            Expr::Scaled(a, _) => a.compute_phase(),
        }
    }

    /// The constant with the given small value.
    pub fn constant(x: u64) -> (r: Expr)
        ensures
            r == Expr::Const(Fp { v: x % FIELD_MODULUS }),
    {
        Expr::Const(Fp::new(x))
    }

    /// The expression reading the given cell.
    pub fn cell(c: CellRef) -> (r: Expr)
        ensures
            r == Expr::Cell(c),
    {
        Expr::Cell(c)
    }

    /// The sum `a + b`.
    pub fn sum(a: Expr, b: Expr) -> (r: Expr)
        ensures
            r == Expr::Sum(Box::new(a), Box::new(b)),
    {
        Expr::Sum(Box::new(a), Box::new(b))
    }

    /// The product `a * b`.
    pub fn product(a: Expr, b: Expr) -> (r: Expr)
        ensures
            r == Expr::Product(Box::new(a), Box::new(b)),
    {
        Expr::Product(Box::new(a), Box::new(b))
    }

    /// The negation `-a`.
    pub fn negate(a: Expr) -> (r: Expr)
        ensures
            r == Expr::Neg(Box::new(a)),
    {
        Expr::Neg(Box::new(a))
    }

    /// The difference `a - b`, written as `a + (-b)`.
    pub fn difference(a: Expr, b: Expr) -> (r: Expr)
        ensures
            r == Expr::Sum(Box::new(a), Box::new(Expr::Neg(Box::new(b)))),
    {
        Expr::Sum(Box::new(a), Box::new(Expr::Neg(Box::new(b))))
    }

    /// The operand scaled by `k`.
    pub fn scaled(a: Expr, k: Fp) -> (r: Expr)
        ensures
            r == Expr::Scaled(Box::new(a), k),
    {
        Expr::Scaled(Box::new(a), k)
    }

    /// The boolean complement `1 - a` of a 0/1-valued expression.
    pub fn complement(a: Expr) -> (r: Expr)
        ensures
            r == Expr::Sum(
                Box::new(Expr::Const(Fp { v: 1 })),
                Box::new(Expr::Neg(Box::new(a))),
            ),
    {
        Expr::Sum(Box::new(Expr::Const(Fp { v: 1 })), Box::new(Expr::Neg(Box::new(a))))
    }
}

impl Clone for Expr {
    /// A structural copy, equal to the original.
    fn clone(&self) -> (s: Self)
        ensures
            s == *self,
        decreases self,
    {
        match self {
            Expr::Const(c) => Expr::Const(*c),
            Expr::Cell(c) => Expr::Cell(*c),
            Expr::Challenge { index, phase } => Expr::Challenge { index: *index, phase: *phase },
            Expr::Neg(a) => Expr::Neg(Box::new((**a).clone())),
            Expr::Sum(a, b) => Expr::Sum(Box::new((**a).clone()), Box::new((**b).clone())),
            Expr::Product(a, b) => Expr::Product(Box::new((**a).clone()), Box::new((**b).clone())),
            Expr::Scaled(a, k) => Expr::Scaled(Box::new((**a).clone()), *k),
        }
    }
}

/// Structural identity of two expressions: the identity the stored-expression
/// cache deduplicates by.  Two syntactically different but semantically equal
/// expressions are distinct under it.
pub fn same_expr(a: &Expr, b: &Expr) -> (r: bool)
    ensures
        r == (*a == *b),
    decreases a,
{
    match (a, b) {
        (Expr::Const(x), Expr::Const(y)) => x.v == y.v,
        (Expr::Cell(x), Expr::Cell(y)) => x.column == y.column && x.rotation == y.rotation,
        (
            Expr::Challenge { index: xi, phase: xp },
            Expr::Challenge { index: yi, phase: yp },
        ) => xi == yi && xp == yp,
        (Expr::Neg(x), Expr::Neg(y)) => same_expr(x, y),
        (Expr::Sum(xa, xb), Expr::Sum(ya, yb)) => same_expr(xa, ya) && same_expr(xb, yb),
        (Expr::Product(xa, xb), Expr::Product(ya, yb)) => same_expr(xa, ya) && same_expr(xb, yb),
        (Expr::Scaled(x, xk), Expr::Scaled(y, yk)) => xk.v == yk.v && same_expr(x, y),
        _ => false,
    }
}

/// Evaluation always yields a canonical residue.
pub proof fn lemma_eval_reduced(e: Expr, env: EvalEnv)
    ensures
        0 <= e.eval(env) < FIELD_MODULUS,
    decreases e,
{
    match e {
        Expr::Const(_) => {},
        Expr::Cell(_) => {},
        Expr::Challenge { .. } => {},
        Expr::Neg(a) => lemma_eval_reduced(*a, env),
        Expr::Sum(a, b) => {
            lemma_eval_reduced(*a, env);
            lemma_eval_reduced(*b, env);
        },
        Expr::Product(a, b) => {
            lemma_eval_reduced(*a, env);
            lemma_eval_reduced(*b, env);
        },
        Expr::Scaled(a, _) => lemma_eval_reduced(*a, env),
    }
}

/// The conjunction of a sequence of 0/1-valued expressions, as a product;
/// the empty conjunction is the constant 1.
pub open spec fn and_of(s: Seq<Expr>) -> Expr
    decreases s.len(),
{
    if s.len() == 0 {
        Expr::Const(Fp { v: 1 })
    } else if s.len() == 1 {
        s[0]
    } else {
        Expr::Product(Box::new(and_of(s.drop_last())), Box::new(s.last()))
    }
}

/// The sum of a sequence of expressions; the empty sum is the constant 0.
pub open spec fn sum_of(s: Seq<Expr>) -> Expr
    decreases s.len(),
{
    if s.len() == 0 {
        Expr::Const(Fp { v: 0 })
    } else if s.len() == 1 {
        s[0]
    } else {
        Expr::Sum(Box::new(sum_of(s.drop_last())), Box::new(s.last()))
    }
}

/// Builds the conjunction `and_of` of the given expressions.
pub fn and_exprs(v: &Vec<Expr>) -> (r: Expr)
    ensures
        r == and_of(v@),
{
    if v.len() == 0 {
        return Expr::constant(1);
    }
    let mut acc: Expr = v[0].clone();
    let mut i: usize = 1;
    while i < v.len()
        invariant
            1 <= i <= v@.len(),
            acc == and_of(v@.subrange(0, i as int)),
        decreases v@.len() - i,
    {
        proof {
            let pre = v@.subrange(0, i as int);
            let post = v@.subrange(0, i + 1);
            assert(post.drop_last() =~= pre);
            assert(post.last() == v@[i as int]);
        }
        acc = Expr::product(acc, v[i].clone());
        i = i + 1;
    }
    proof {
        assert(v@.subrange(0, v@.len() as int) =~= v@);
    }
    acc
}

/// Builds the sum `sum_of` of the given expressions.
pub fn sum_exprs(v: &Vec<Expr>) -> (r: Expr)
    ensures
        r == sum_of(v@),
{
    if v.len() == 0 {
        return Expr::constant(0);
    }
    let mut acc: Expr = v[0].clone();
    let mut i: usize = 1;
    while i < v.len()
        invariant
            1 <= i <= v@.len(),
            acc == sum_of(v@.subrange(0, i as int)),
        decreases v@.len() - i,
    {
        proof {
            let pre = v@.subrange(0, i as int);
            let post = v@.subrange(0, i + 1);
            assert(post.drop_last() =~= pre);
            assert(post.last() == v@[i as int]);
        }
        acc = Expr::sum(acc, v[i].clone());
        i = i + 1;
    }
    proof {
        assert(v@.subrange(0, v@.len() as int) =~= v@);
    }
    acc
}

} // verus!
