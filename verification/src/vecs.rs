//! Conversions between tuples, vectors and expression vectors, and
//! element-wise arithmetic on vectors of expressions.

use vstd::prelude::*;
use crate::expr::{CellRef, Expr};
use crate::field::{freduce, Fp, FIELD_MODULUS};

verus! {

/// Containers whose elements can be collected into a vector.
pub trait ToVec<T: Clone> {
    /// The elements being collected.
    spec fn elements(&self) -> Seq<T>;

    /// Collects the elements into a vector, in order.
    fn to_vec(&self) -> (r: Vec<T>)
        ensures
            r@.len() == self.elements().len(),
            forall|i: int|
                0 <= i < r@.len() ==> cloned::<T>(self.elements()[i], #[trigger] r@[i]),
    ;
}

impl<T: Clone> ToVec<T> for Vec<T> {
    open spec fn elements(&self) -> Seq<T> {
        self@
    }

    fn to_vec(&self) -> (r: Vec<T>) {
        self.clone()
    }
}

impl<T: Clone> ToVec<T> for [T] {
    open spec fn elements(&self) -> Seq<T> {
        self@
    }

    fn to_vec(&self) -> (r: Vec<T>) {
        let mut out: Vec<T> = Vec::new();
        let n = self.len();
        let mut i: usize = 0;
        while i < n
            invariant
                i <= n,
                n == self@.len(),
                out@.len() == i,
                forall|j: int| 0 <= j < i ==> cloned::<T>(self@[j], #[trigger] out@[j]),
            decreases n - i,
        {
            out.push(self[i].clone());
            i = i + 1;
        }
        out
    }
}

impl<T: Clone> ToVec<T> for (T, T) {
    open spec fn elements(&self) -> Seq<T> {
        seq![self.0, self.1]
    }

    fn to_vec(&self) -> (r: Vec<T>) {
        let mut out: Vec<T> = Vec::new();
        out.push(self.0.clone());
        out.push(self.1.clone());
        out
    }
}

impl<T: Clone> ToVec<T> for (T, T, T) {
    open spec fn elements(&self) -> Seq<T> {
        seq![self.0, self.1, self.2]
    }

    fn to_vec(&self) -> (r: Vec<T>) {
        let mut out: Vec<T> = Vec::new();
        out.push(self.0.clone());
        out.push(self.1.clone());
        out.push(self.2.clone());
        out
    }
}

impl<T: Clone> ToVec<T> for (T, T, T, T) {
    open spec fn elements(&self) -> Seq<T> {
        seq![self.0, self.1, self.2, self.3]
    }

    fn to_vec(&self) -> (r: Vec<T>) {
        let mut out: Vec<T> = Vec::new();
        out.push(self.0.clone());
        out.push(self.1.clone());
        out.push(self.2.clone());
        out.push(self.3.clone());
        out
    }
}

/// Values castable to a symbolic expression.
pub trait ToExpr {
    /// The expression this value denotes.
    spec fn to_expr_spec(&self) -> Expr;

    /// Casts the value to an expression.
    fn expr(&self) -> (r: Expr)
        ensures
            r == self.to_expr_spec(),
    ;
}

impl ToExpr for Expr {
    open spec fn to_expr_spec(&self) -> Expr {
        *self
    }

    fn expr(&self) -> (r: Expr) {
        self.clone()
    }
}

impl ToExpr for CellRef {
    open spec fn to_expr_spec(&self) -> Expr {
        Expr::Cell(*self)
    }

    fn expr(&self) -> (r: Expr) {
        Expr::cell(*self)
    }
}

impl ToExpr for Fp {
    open spec fn to_expr_spec(&self) -> Expr {
        Expr::Const(*self)
    }

    fn expr(&self) -> (r: Expr) {
        Expr::Const(*self)
    }
}

impl ToExpr for bool {
    open spec fn to_expr_spec(&self) -> Expr {
        if *self {
            Expr::Const(Fp { v: 1 })
        } else {
            Expr::Const(Fp { v: 0 })
        }
    }

    fn expr(&self) -> (r: Expr) {
        if *self {
            Expr::Const(Fp { v: 1 })
        } else {
            Expr::Const(Fp { v: 0 })
        }
    }
}

impl ToExpr for u8 {
    open spec fn to_expr_spec(&self) -> Expr {
        Expr::Const(Fp { v: *self as u64 })
    }

    fn expr(&self) -> (r: Expr) {
        Expr::Const(Fp { v: *self as u64 })
    }
}

impl ToExpr for i32 {
    open spec fn to_expr_spec(&self) -> Expr {
        if *self >= 0 {
            Expr::Const(Fp { v: freduce(*self as int) as u64 })
        } else {
            Expr::Const(Fp { v: crate::field::fneg(-(*self as int)) as u64 })
        }
    }

    fn expr(&self) -> (r: Expr) {
        if *self >= 0 {
            Expr::constant(*self as u64)
        } else {
            let mag: u64 = (-(*self as i64)) as u64;
            let c = Fp::new(mag).neg();
            proof {
                let m = FIELD_MODULUS as int;
                vstd::arithmetic::div_mod::lemma_small_mod(
                    (mag as int % m) as nat,
                    FIELD_MODULUS as nat,
                );
                assert(c.v == crate::field::fneg(mag as int));
            }
            Expr::Const(c)
        }
    }
}

impl ToExpr for u64 {
    open spec fn to_expr_spec(&self) -> Expr {
        Expr::Const(Fp { v: freduce(*self as int) as u64 })
    }

    fn expr(&self) -> (r: Expr) {
        Expr::constant(*self)
    }
}

impl ToExpr for usize {
    open spec fn to_expr_spec(&self) -> Expr {
        Expr::Const(Fp { v: freduce(*self as int) as u64 })
    }

    fn expr(&self) -> (r: Expr) {
        Expr::constant(*self as u64)
    }
}

/// Containers convertible to a vector of expressions.
pub trait ExprVec {
    /// The expressions the container denotes.
    spec fn expr_seq(&self) -> Seq<Expr>;

    /// Converts the container to a vector of expressions.
    fn to_expr_vec(&self) -> (r: Vec<Expr>)
        ensures
            r@ == self.expr_seq(),
    ;
}

impl<E: ToExpr> ExprVec for Vec<E> {
    open spec fn expr_seq(&self) -> Seq<Expr> {
        self@.map_values(|e: E| e.to_expr_spec())
    }

    fn to_expr_vec(&self) -> (r: Vec<Expr>) {
        let mut out: Vec<Expr> = Vec::new();
        let n = self.len();
        let mut i: usize = 0;
        while i < n
            invariant
                i <= n,
                n == self@.len(),
                out@.len() == i,
                forall|j: int| 0 <= j < i ==> out@[j] == self.expr_seq()[j],
            decreases n - i,
        {
            out.push(self[i].expr());
            i = i + 1;
        }
        proof {
            assert(out@ =~= self.expr_seq());
        }
        out
    }
}

impl ExprVec for core::ops::Range<usize> {
    open spec fn expr_seq(&self) -> Seq<Expr> {
        if self.start <= self.end {
            Seq::new(
                (self.end - self.start) as nat,
                |i: int| Expr::Const(Fp { v: freduce(self.start + i) as u64 }),
            )
        } else {
            Seq::empty()
        }
    }

    fn to_expr_vec(&self) -> (r: Vec<Expr>) {
        let mut out: Vec<Expr> = Vec::new();
        if self.start > self.end {
            return out;
        }
        let mut i: usize = self.start;
        while i < self.end
            invariant
                self.start <= i <= self.end,
                out@.len() == i - self.start,
                forall|j: int| 0 <= j < out@.len() ==> out@[j] == self.expr_seq()[j],
            decreases self.end - i,
        {
            out.push(Expr::constant(i as u64));
            i = i + 1;
        }
        proof {
            assert(out@ =~= self.expr_seq());
        }
        out
    }
}

/// A vector of expressions with element-wise arithmetic.
pub struct ExpressionVec(pub Vec<Expr>);

impl ExpressionVec {
    /// Element-wise sum of two vectors, as long as the shorter.
    pub fn add(&self, rhs: &ExpressionVec) -> (r: ExpressionVec)
        ensures
            r.0@.len() == if self.0@.len() <= rhs.0@.len() {
                self.0@.len()
            } else {
                rhs.0@.len()
            },
            forall|i: int|
                0 <= i < r.0@.len() ==> r.0@[i] == Expr::Sum(
                    Box::new(self.0@[i]),
                    Box::new(rhs.0@[i]),
                ),
    {
        let n = if self.0.len() <= rhs.0.len() {
            self.0.len()
        } else {
            rhs.0.len()
        };
        let mut out: Vec<Expr> = Vec::new();
        let mut i: usize = 0;
        while i < n
            invariant
                i <= n,
                n <= self.0@.len(),
                n <= rhs.0@.len(),
                out@.len() == i,
                forall|j: int|
                    0 <= j < i ==> out@[j] == Expr::Sum(
                        Box::new(self.0@[j]),
                        Box::new(rhs.0@[j]),
                    ),
            decreases n - i,
        {
            out.push(Expr::sum(self.0[i].clone(), rhs.0[i].clone()));
            i = i + 1;
        }
        ExpressionVec(out)
    }

    /// Element-wise product of two vectors, as long as the shorter.
    pub fn mul(&self, rhs: &ExpressionVec) -> (r: ExpressionVec)
        ensures
            r.0@.len() == if self.0@.len() <= rhs.0@.len() {
                self.0@.len()
            } else {
                rhs.0@.len()
            },
            forall|i: int|
                0 <= i < r.0@.len() ==> r.0@[i] == Expr::Product(
                    Box::new(self.0@[i]),
                    Box::new(rhs.0@[i]),
                ),
    {
        let n = if self.0.len() <= rhs.0.len() {
            self.0.len()
        } else {
            rhs.0.len()
        };
        let mut out: Vec<Expr> = Vec::new();
        let mut i: usize = 0;
        while i < n
            invariant
                i <= n,
                n <= self.0@.len(),
                n <= rhs.0@.len(),
                out@.len() == i,
                forall|j: int|
                    0 <= j < i ==> out@[j] == Expr::Product(
                        Box::new(self.0@[j]),
                        Box::new(rhs.0@[j]),
                    ),
            decreases n - i,
        {
            out.push(Expr::product(self.0[i].clone(), rhs.0[i].clone()));
            i = i + 1;
        }
        ExpressionVec(out)
    }
}

/// Results of conditional composition: values that can be summed with each
/// other and scaled by a condition, element-wise.
pub trait ExprResult: Sized {
    /// The expressions the value carries.
    spec fn parts(&self) -> Seq<Expr>;

    /// Element-wise sum.
    fn add(&self, other: &Self) -> (r: Self)
        ensures
            r.parts().len() == if self.parts().len() <= other.parts().len() {
                self.parts().len()
            } else {
                other.parts().len()
            },
            forall|i: int|
                0 <= i < r.parts().len() ==> r.parts()[i] == Expr::Sum(
                    Box::new(self.parts()[i]),
                    Box::new(other.parts()[i]),
                ),
    ;

    /// Element-wise scaling by a condition.
    fn mul(&self, other: &Expr) -> (r: Self)
        ensures
            r.parts().len() == self.parts().len(),
            forall|i: int|
                0 <= i < r.parts().len() ==> r.parts()[i] == Expr::Product(
                    Box::new(self.parts()[i]),
                    Box::new(*other),
                ),
    ;
}

impl ExprResult for Vec<Expr> {
    open spec fn parts(&self) -> Seq<Expr> {
        self@
    }

    fn add(&self, other: &Self) -> (r: Self) {
        ExpressionVec(self.clone()).add(&ExpressionVec(other.clone())).0
    }

    fn mul(&self, other: &Expr) -> (r: Self) {
        let n = self.len();
        let mut out: Vec<Expr> = Vec::new();
        let mut i: usize = 0;
        while i < n
            invariant
                i <= n,
                n == self@.len(),
                out@.len() == i,
                forall|j: int|
                    0 <= j < i ==> out@[j] == Expr::Product(
                        Box::new(self@[j]),
                        Box::new(*other),
                    ),
            decreases n - i,
        {
            out.push(Expr::product(self[i].clone(), other.clone()));
            i = i + 1;
        }
        out
    }
}

impl ExprResult for Expr {
    open spec fn parts(&self) -> Seq<Expr> {
        seq![*self]
    }

    fn add(&self, other: &Self) -> (r: Self) {
        Expr::sum(self.clone(), other.clone())
    }

    fn mul(&self, other: &Expr) -> (r: Self) {
        Expr::product(self.clone(), other.clone())
    }
}

} // verus!
