//! The table merger: combines conditionally-active rows claiming one
//! dynamic-table tag into a single row, by condition-weighted summation.
//!
//! Merging is only sound when at most one contributing row can be active;
//! `merge_check` asserts that (the sum of the conditions is boolean), and
//! `check_and_merge` couples the check with the merge.  `merge_and_select`
//! skips the check and instead scales the merged row by the selector, a
//! documented best-effort mode: overlapping sources would sum, not select.

use vstd::prelude::*;
use crate::builder::{ConstraintBuilder, TableData, TableView};
use crate::expr::{sum_of, EvalEnv, Expr};
use crate::field::{fadd, fmul, freduce, Fp, FIELD_MODULUS};

verus! {

/// The conditions of a row set, in order.
pub open spec fn conditions_of(tvs: Seq<TableView>) -> Seq<Expr> {
    tvs.map_values(|t: TableView| t.condition())
}

/// The selector of a row set: the sum of its conditions.
pub open spec fn selector_spec(tvs: Seq<TableView>) -> Expr {
    sum_of(conditions_of(tvs))
}

/// The widest row among the set.
pub open spec fn max_width(tvs: Seq<TableView>) -> nat
    decreases tvs.len(),
{
    if tvs.len() == 0 {
        0
    } else {
        let rest = max_width(tvs.drop_last());
        if tvs.last().values.len() > rest {
            tvs.last().values.len()
        } else {
            rest
        }
    }
}

/// Column `j` of a row, zero-padded past the row's width.
pub open spec fn padded_value(t: TableView, j: int) -> Expr {
    if 0 <= j < t.values.len() {
        t.values[j]
    } else {
        Expr::Const(Fp { v: 0 })
    }
}

/// The terms contributing to merged column `j`: each row's condition times
/// its (padded) value.
pub open spec fn column_terms(tvs: Seq<TableView>, j: int) -> Seq<Expr> {
    tvs.map_values(
        |t: TableView| Expr::Product(Box::new(t.condition()), Box::new(padded_value(t, j))),
    )
}

/// Merged column `j`: the sum of the contributing terms.
pub open spec fn merged_column_spec(tvs: Seq<TableView>, j: int) -> Expr {
    sum_of(column_terms(tvs, j))
}

/// The value of the sum of a sequence of expressions, by the same fold
/// `sum_of` builds.
pub open spec fn sum_eval(s: Seq<Expr>, env: EvalEnv) -> int
    decreases s.len(),
{
    if s.len() == 0 {
        0
    } else if s.len() == 1 {
        s[0].eval(env)
    } else {
        fadd(sum_eval(s.drop_last(), env), s.last().eval(env))
    }
}

/// `sum_of` evaluates to the fold of its summands' values.
pub proof fn lemma_sum_of_eval(s: Seq<Expr>, env: EvalEnv)
    ensures
        sum_of(s).eval(env) == sum_eval(s, env),
    decreases s.len(),
{
    if s.len() > 1 {
        lemma_sum_of_eval(s.drop_last(), env);
    }
}

/// Combines conditionally-active rows sharing one dynamic-table tag.
pub struct TableMerger {
    pub data: Vec<TableData>,
}

impl TableMerger {
    /// The mathematical content of the row set.
    pub open spec fn rows(self) -> Seq<TableView> {
        self.data.deep_view()
    }

    /// Builds the conditions of the rows, in order.
    fn collect_conditions(&self) -> (r: Vec<Expr>)
        ensures
            r@ == conditions_of(self.rows()),
    {
        let mut out: Vec<Expr> = Vec::new();
        let n = self.data.len();
        let mut i: usize = 0;
        while i < n
            invariant
                i <= n,
                n == self.data@.len(),
                out@.len() == i,
                forall|j: int| 0 <= j < i ==> out@[j] == conditions_of(self.rows())[j],
            decreases n - i,
        {
            out.push(self.data[i].condition());
            i = i + 1;
        }
        proof {
            assert(out@ =~= conditions_of(self.rows()));
        }
        out
    }

    /// Requires that at most one row be active in any satisfying
    /// assignment: the sum of all conditions must be boolean.  This is the
    /// soundness precondition of merging.
    pub fn merge_check(&self, cb: &mut ConstraintBuilder)
        requires
            old(cb).can_add(
                Expr::Product(
                    Box::new(selector_spec(self.rows())),
                    Box::new(
                        Expr::Sum(
                            Box::new(Expr::Const(Fp { v: 1 })),
                            Box::new(Expr::Neg(Box::new(selector_spec(self.rows())))),
                        ),
                    ),
                ),
            ),
        ensures
            *final(cb) == (ConstraintBuilder {
                constraints: final(cb).constraints,
                stored_expressions: final(cb).stored_expressions,
                cell_manager: final(cb).cell_manager,
                ..*old(cb)
            }),
            final(cb).constraints@.subrange(0, old(cb).constraints@.len() as int) == old(
                cb,
            ).constraints@,
            final(cb).constraints@.len() >= old(cb).constraints@.len(),
            old(cb).cm_ready() ==> final(cb).cm_ready(),
            crate::builder::bindings_extend(*old(cb), *final(cb)),
            old(cb).wf() ==> final(cb).wf(),
            old(cb).max_global_degree != 0 ==> final(cb).constraints@.len() > old(
                cb,
            ).constraints@.len(),
            old(cb).max_global_degree != 0 ==> (forall|env: EvalEnv|
                #[trigger] final(cb).env_consistent(env)
                    ==> final(cb).constraints@.last().expr.eval(env) == old(cb).gated_constraint(
                    Expr::Product(
                        Box::new(selector_spec(self.rows())),
                        Box::new(
                            Expr::Sum(
                                Box::new(Expr::Const(Fp { v: 1 })),
                                Box::new(Expr::Neg(Box::new(selector_spec(self.rows())))),
                            ),
                        ),
                    ),
                ).eval(env)),
    {
        let conds = self.collect_conditions();
        let selector = crate::expr::sum_exprs(&conds);
        cb.require_boolean("merge selector is boolean", selector);
    }

    /// Computes the selector and the merged row without asserting
    /// exclusivity: `merged[j]` is the sum over rows of condition times
    /// (zero-padded) value.
    pub fn merge_unsafe(&self) -> (r: (Expr, Vec<Expr>))
        ensures
            self.rows().len() == 0 ==> r.0 == Expr::Const(Fp { v: 0 }) && r.1@.len() == 0,
            self.rows().len() > 0 ==> {
                &&& r.0 == selector_spec(self.rows())
                &&& r.1@.len() == max_width(self.rows())
                &&& forall|j: int|
                    0 <= j < r.1@.len() ==> r.1@[j] == merged_column_spec(self.rows(), j)
            },
    {
        let n = self.data.len();
        if n == 0 {
            return (Expr::constant(0), Vec::new());
        }
        let conds = self.collect_conditions();
        let selector = crate::expr::sum_exprs(&conds);
        let mut width: usize = 0;
        let mut i: usize = 0;
        while i < n
            invariant
                i <= n,
                n == self.data@.len(),
                width == max_width(self.rows().subrange(0, i as int)),
            decreases n - i,
        {
            proof {
                let pre = self.rows().subrange(0, i as int);
                let post = self.rows().subrange(0, i + 1);
                assert(post.drop_last() =~= pre);
                assert(post.last() == self.rows()[i as int]);
            }
            if self.data[i].values.len() > width {
                width = self.data[i].values.len();
            }
            i = i + 1;
        }
        proof {
            assert(self.rows().subrange(0, n as int) =~= self.rows());
        }
        let mut merged: Vec<Expr> = Vec::new();
        let mut j: usize = 0;
        while j < width
            invariant
                j <= width,
                n == self.data@.len(),
                merged@.len() == j,
                forall|m: int| 0 <= m < j ==> merged@[m] == merged_column_spec(self.rows(), m),
            decreases width - j,
        {
            let mut terms: Vec<Expr> = Vec::new();
            let mut i2: usize = 0;
            while i2 < n
                invariant
                    i2 <= n,
                    n == self.data@.len(),
                    terms@.len() == i2,
                    forall|m: int| 0 <= m < i2 ==> terms@[m] == column_terms(self.rows(), j as int)[m],
                decreases n - i2,
            {
                let row = &self.data[i2];
                let v = if j < row.values.len() {
                    row.values[j].clone()
                } else {
                    Expr::constant(0)
                };
                terms.push(Expr::product(row.condition(), v));
                i2 = i2 + 1;
            }
            proof {
                assert(terms@ =~= column_terms(self.rows(), j as int));
            }
            merged.push(crate::expr::sum_exprs(&terms));
            j = j + 1;
        }
        (selector, merged)
    }

    /// `merge_check` followed by `merge_unsafe`: used when populating a
    /// physical table, where exclusivity must be proven.
    pub fn check_and_merge(&self, cb: &mut ConstraintBuilder) -> (r: (Expr, Vec<Expr>))
        requires
            old(cb).can_add(
                Expr::Product(
                    Box::new(selector_spec(self.rows())),
                    Box::new(
                        Expr::Sum(
                            Box::new(Expr::Const(Fp { v: 1 })),
                            Box::new(Expr::Neg(Box::new(selector_spec(self.rows())))),
                        ),
                    ),
                ),
            ),
        ensures
            *final(cb) == (ConstraintBuilder {
                constraints: final(cb).constraints,
                stored_expressions: final(cb).stored_expressions,
                cell_manager: final(cb).cell_manager,
                ..*old(cb)
            }),
            final(cb).constraints@.subrange(0, old(cb).constraints@.len() as int) == old(
                cb,
            ).constraints@,
            old(cb).cm_ready() ==> final(cb).cm_ready(),
            crate::builder::bindings_extend(*old(cb), *final(cb)),
            old(cb).wf() ==> final(cb).wf(),
            old(cb).max_global_degree != 0 ==> final(cb).constraints@.len() > old(
                cb,
            ).constraints@.len(),
            old(cb).max_global_degree != 0 ==> (forall|env: EvalEnv|
                #[trigger] final(cb).env_consistent(env)
                    ==> final(cb).constraints@.last().expr.eval(env) == old(cb).gated_constraint(
                    Expr::Product(
                        Box::new(selector_spec(self.rows())),
                        Box::new(
                            Expr::Sum(
                                Box::new(Expr::Const(Fp { v: 1 })),
                                Box::new(Expr::Neg(Box::new(selector_spec(self.rows())))),
                            ),
                        ),
                    ),
                ).eval(env)),
            self.rows().len() == 0 ==> r.0 == Expr::Const(Fp { v: 0 }) && r.1@.len() == 0,
            self.rows().len() > 0 ==> {
                &&& r.0 == selector_spec(self.rows())
                &&& r.1@.len() == max_width(self.rows())
                &&& forall|j: int|
                    0 <= j < r.1@.len() ==> r.1@[j] == merged_column_spec(self.rows(), j)
            },
    {
        self.merge_check(cb);
        self.merge_unsafe()
    }

    /// `merge_unsafe` with every merged column scaled by the selector,
    /// without asserting exclusivity: overlapping sources would sum rather
    /// than select, which is the caller's responsibility.
    pub fn merge_and_select(&self, _cb: &mut ConstraintBuilder) -> (r: Vec<Expr>)
        ensures
            *final(_cb) == *old(_cb),
            self.rows().len() == 0 ==> r@.len() == 0,
            self.rows().len() > 0 ==> {
                &&& r@.len() == max_width(self.rows())
                &&& forall|j: int|
                    0 <= j < r@.len() ==> r@[j] == Expr::Product(
                        Box::new(selector_spec(self.rows())),
                        Box::new(merged_column_spec(self.rows(), j)),
                    )
            },
    {
        let (selector, merged) = self.merge_unsafe();
        let mut out: Vec<Expr> = Vec::new();
        let n = merged.len();
        let mut i: usize = 0;
        while i < n
            invariant
                i <= n,
                n == merged@.len(),
                out@.len() == i,
                forall|j: int|
                    0 <= j < i ==> out@[j] == Expr::Product(
                        Box::new(selector),
                        Box::new(merged@[j]),
                    ),
            decreases n - i,
        {
            out.push(Expr::product(selector.clone(), merged[i].clone()));
            i = i + 1;
        }
        out
    }
}

/// When exactly the row at position `k` is active (its condition evaluates
/// to 1 and every other row's to 0), the merged column takes that row's
/// value: weighted summation selects.
pub proof fn lemma_merge_selects_active_row(
    tvs: Seq<TableView>,
    j: int,
    k: int,
    env: EvalEnv,
)
    requires
        0 <= k < tvs.len(),
        tvs[k].condition().eval(env) == 1,
        forall|i: int| 0 <= i < tvs.len() && i != k ==> (#[trigger] tvs[i]).condition().eval(env)
            == 0,
    ensures
        merged_column_spec(tvs, j).eval(env) == freduce(padded_value(tvs[k], j).eval(env)),
        selector_spec(tvs).eval(env) == 1,
{
    lemma_sum_of_eval(column_terms(tvs, j), env);
    lemma_sum_of_eval(conditions_of(tvs), env);
    lemma_terms_select(tvs, j, k, env);
    lemma_conditions_select(tvs, k, env);
    crate::field::lemma_residue_bounds();
    assert(freduce(1int) == 1) by {
        vstd::arithmetic::div_mod::lemma_small_mod(1nat, FIELD_MODULUS as nat);
    }
}

/// The condition sum of a row set with one active row evaluates to 1.
proof fn lemma_conditions_select(tvs: Seq<TableView>, k: int, env: EvalEnv)
    requires
        0 <= k < tvs.len(),
        tvs[k].condition().eval(env) == 1,
        forall|i: int| 0 <= i < tvs.len() && i != k ==> (#[trigger] tvs[i]).condition().eval(env)
            == 0,
    ensures
        sum_eval(conditions_of(tvs), env) == 1,
    decreases tvs.len(),
{
    let s = conditions_of(tvs);
    if tvs.len() == 1 {
    } else {
        let front = tvs.drop_last();
        assert(conditions_of(front) =~= s.drop_last());
        if k == tvs.len() - 1 {
            lemma_conditions_zero(front, env);
            assert(sum_eval(s, env) == fadd(0, 1));
            assert(fadd(0, 1) == 1) by {
                vstd::arithmetic::div_mod::lemma_small_mod(1nat, FIELD_MODULUS as nat);
            }
        } else {
            lemma_conditions_select(front, k, env);
            assert(tvs.last().condition().eval(env) == 0);
            assert(sum_eval(s, env) == fadd(1, 0));
            assert(fadd(1, 0) == 1) by {
                vstd::arithmetic::div_mod::lemma_small_mod(1nat, FIELD_MODULUS as nat);
            }
        }
    }
}

/// The condition sum of a row set with no active row evaluates to 0.
proof fn lemma_conditions_zero(tvs: Seq<TableView>, env: EvalEnv)
    requires
        forall|i: int| 0 <= i < tvs.len() ==> (#[trigger] tvs[i]).condition().eval(env) == 0,
    ensures
        sum_eval(conditions_of(tvs), env) == 0,
    decreases tvs.len(),
{
    let s = conditions_of(tvs);
    if tvs.len() > 1 {
        let front = tvs.drop_last();
        assert(conditions_of(front) =~= s.drop_last());
        lemma_conditions_zero(front, env);
        assert(sum_eval(s, env) == fadd(0, 0));
        assert(fadd(0, 0) == 0) by {
            vstd::arithmetic::div_mod::lemma_small_mod(0nat, FIELD_MODULUS as nat);
        }
    }
}

/// The weighted column terms of a row set with one active row sum to that
/// row's (reduced) value.
proof fn lemma_terms_select(tvs: Seq<TableView>, j: int, k: int, env: EvalEnv)
    requires
        0 <= k < tvs.len(),
        tvs[k].condition().eval(env) == 1,
        forall|i: int| 0 <= i < tvs.len() && i != k ==> (#[trigger] tvs[i]).condition().eval(env)
            == 0,
    ensures
        sum_eval(column_terms(tvs, j), env) == freduce(padded_value(tvs[k], j).eval(env)),
    decreases tvs.len(),
{
    let s = column_terms(tvs, j);
    crate::field::lemma_one_mul(padded_value(tvs[k], j).eval(env));
    if tvs.len() == 1 {
    } else {
        let front = tvs.drop_last();
        assert(column_terms(front, j) =~= s.drop_last());
        if k == tvs.len() - 1 {
            lemma_terms_zero(front, j, env);
            crate::field::lemma_add_zero_left(padded_value(tvs[k], j).eval(env));
        } else {
            lemma_terms_select(front, j, k, env);
            crate::field::lemma_zero_mul(padded_value(tvs.last(), j).eval(env));
            crate::field::lemma_add_zero_right(padded_value(tvs[k], j).eval(env));
        }
    }
}

/// The weighted column terms of a row set with no active row sum to 0.
proof fn lemma_terms_zero(tvs: Seq<TableView>, j: int, env: EvalEnv)
    requires
        forall|i: int| 0 <= i < tvs.len() ==> (#[trigger] tvs[i]).condition().eval(env) == 0,
    ensures
        sum_eval(column_terms(tvs, j), env) == 0,
    decreases tvs.len(),
{
    let s = column_terms(tvs, j);
    if tvs.len() == 1 {
        crate::field::lemma_zero_mul(padded_value(tvs[0], j).eval(env));
    } else if tvs.len() > 1 {
        let front = tvs.drop_last();
        assert(column_terms(front, j) =~= s.drop_last());
        lemma_terms_zero(front, j, env);
        crate::field::lemma_zero_mul(padded_value(tvs.last(), j).eval(env));
        assert(fadd(0, 0) == 0) by {
            vstd::arithmetic::div_mod::lemma_small_mod(0nat, FIELD_MODULUS as nat);
        }
    }
}

} // verus!
