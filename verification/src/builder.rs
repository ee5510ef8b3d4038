//! The constraint builder: the orchestrating component of the engine.
//!
//! It keeps the condition stack, the region state, the degree budget, the
//! constraint, lookup and table bookkeeping, and the stored-expression
//! cache.  Every operation's contract pins down how it transforms the
//! builder, over the expression views of `crate::expr`; the stored-
//! expression cache additionally has a functional model (`store_step`),
//! which makes its determinism and idempotence provable facts.

use vstd::prelude::*;
use crate::cells::{CellColumn, CellManager, CellTypePolicy};
use crate::expr::{and_of, CellRef, EvalEnv, Expr};
use crate::field::FIELD_MODULUS;

verus! {

/// A named polynomial asserted to be identically zero.
#[derive(Debug)]
pub struct Constraint {
    pub name: String,
    pub expr: Expr,
}

/// The mathematical content of a `Constraint`.
#[verifier::ext_equal]
pub struct ConstraintView {
    pub name: Seq<char>,
    pub expr: Expr,
}

impl View for Constraint {
    type V = ConstraintView;

    open spec fn view(&self) -> ConstraintView {
        ConstraintView { name: self.name@, expr: self.expr }
    }
}

/// A pending table-population record.
#[derive(Debug)]
#[verifier::ext_equal]
pub struct TableData {
    /// Description, for diagnostics.
    pub description: String,
    /// The base condition of the region that stored the row.
    pub regional_condition: Expr,
    /// The condition in force when the row was stored.
    pub local_condition: Expr,
    /// The row's values.
    pub values: Vec<Expr>,
    /// The region that produced the row.
    pub region_id: usize,
}

/// The mathematical content of a `TableData`.
#[verifier::ext_equal]
pub struct TableView {
    pub description: Seq<char>,
    pub regional_condition: Expr,
    pub local_condition: Expr,
    pub values: Seq<Expr>,
    pub region_id: usize,
}

impl View for TableData {
    type V = TableView;

    open spec fn view(&self) -> TableView {
        TableView {
            description: self.description@,
            regional_condition: self.regional_condition,
            local_condition: self.local_condition,
            values: self.values@,
            region_id: self.region_id,
        }
    }
}

impl DeepView for TableData {
    type V = TableView;

    open spec fn deep_view(&self) -> TableView {
        self.view()
    }
}

impl TableView {
    /// The condition under which the row is active.
    pub open spec fn condition(self) -> Expr {
        Expr::Product(Box::new(self.regional_condition), Box::new(self.local_condition))
    }
}

/// A pending lookup-check record.
#[derive(Debug)]
#[verifier::ext_equal]
pub struct LookupData {
    /// Description, for diagnostics.
    pub description: String,
    /// The base condition of the region that requested the lookup.
    pub regional_condition: Expr,
    /// The condition in force when the lookup was requested.
    pub local_condition: Expr,
    /// The values to look up.
    pub values: Vec<Expr>,
    /// The target table's columns, captured at registration time.
    pub table: Vec<Expr>,
    /// The region that requested the lookup.
    pub region_id: usize,
}

/// The mathematical content of a `LookupData`.
#[verifier::ext_equal]
pub struct LookupView {
    pub description: Seq<char>,
    pub regional_condition: Expr,
    pub local_condition: Expr,
    pub values: Seq<Expr>,
    pub table: Seq<Expr>,
    pub region_id: usize,
}

impl View for LookupData {
    type V = LookupView;

    open spec fn view(&self) -> LookupView {
        LookupView {
            description: self.description@,
            regional_condition: self.regional_condition,
            local_condition: self.local_condition,
            values: self.values@,
            table: self.table@,
            region_id: self.region_id,
        }
    }
}

impl LookupView {
    /// The condition under which the lookup is active.
    pub open spec fn condition(self) -> Expr {
        Expr::Product(Box::new(self.regional_condition), Box::new(self.local_condition))
    }
}

/// A cached binding of a sub-expression to an allocated cell.
#[derive(Debug)]
pub struct StoredExpression {
    pub name: String,
    pub region_id: usize,
    pub cell: CellRef,
    pub cell_type: usize,
    pub expr: Expr,
}

/// One lookup-argument registration ready for an arithmetization backend:
/// pairs of (requested value, table column) of equal width.
#[derive(Debug)]
pub struct LookupArgument {
    pub description: String,
    pub pairs: Vec<(Expr, Expr)>,
}

/// The mathematical content of a `LookupArgument`.
#[verifier::ext_equal]
pub struct LookupArgumentView {
    pub description: Seq<char>,
    pub pairs: Seq<(Expr, Expr)>,
}

impl View for LookupArgument {
    type V = LookupArgumentView;

    open spec fn view(&self) -> LookupArgumentView {
        LookupArgumentView { description: self.description@, pairs: self.pairs@ }
    }
}

/// Whether `arg` is the emission of the pending lookup `lk`: descriptions
/// match, the pairs are as wide as the table, each requested value is
/// scaled by the lookup's condition, and missing values are zero-padded.
pub open spec fn lookup_emitted(lk: LookupView, arg: LookupArgumentView) -> bool {
    &&& arg.description == lk.description
    &&& arg.pairs.len() == lk.table.len()
    &&& forall|j: int|
        0 <= j < lk.values.len() && j < lk.table.len() ==> (#[trigger] arg.pairs[j]).0
            == Expr::Product(Box::new(lk.values[j]), Box::new(lk.condition()))
            && arg.pairs[j].1 == lk.table[j]
    &&& forall|j: int|
        lk.values.len() <= j < lk.table.len() ==> (#[trigger] arg.pairs[j]).0 == Expr::Const(
            crate::field::Fp { v: 0 },
        ) && arg.pairs[j].1 == lk.table[j]
}

/// The name-free content of a stored-expression cache entry.
pub struct Binding {
    pub region_id: usize,
    pub cell: CellRef,
    pub cell_type: usize,
    pub expr: Expr,
}

/// The part of the builder the stored-expression cache acts on.
#[verifier::ext_equal]
pub struct CacheState {
    pub entries: Seq<Binding>,
    pub columns: Seq<CellColumn>,
    pub constraint_exprs: Seq<Expr>,
}

/// Whether a cache entry answers a query for `e` stored as `t` in `region`.
pub open spec fn cache_match(b: Binding, region: usize, t: usize, e: Expr) -> bool {
    b.region_id == region && b.cell_type == t && b.expr == e
}

/// The position of the first cache entry answering the query, or -1.
pub open spec fn cache_find(entries: Seq<Binding>, region: usize, t: usize, e: Expr) -> int
    decreases entries.len(),
{
    if entries.len() == 0 {
        -1
    } else if cache_match(entries[0], region, t, e) {
        0
    } else {
        let r = cache_find(entries.drop_first(), region, t, e);
        if r == -1 {
            -1
        } else {
            r + 1
        }
    }
}

pub proof fn lemma_cache_find_props(entries: Seq<Binding>, region: usize, t: usize, e: Expr)
    ensures
        cache_find(entries, region, t, e) == -1 || 0 <= cache_find(entries, region, t, e)
            < entries.len(),
        cache_find(entries, region, t, e) == -1 <==> (forall|i: int|
            0 <= i < entries.len() ==> !cache_match(entries[i], region, t, e)),
        cache_find(entries, region, t, e) >= 0 ==> {
            &&& cache_find(entries, region, t, e) < entries.len()
            &&& cache_match(entries[cache_find(entries, region, t, e)], region, t, e)
            &&& forall|j: int|
                0 <= j < cache_find(entries, region, t, e) ==> !cache_match(
                    entries[j],
                    region,
                    t,
                    e,
                )
        },
    decreases entries.len(),
{
    if entries.len() > 0 && !cache_match(entries[0], region, t, e) {
        let tail = entries.drop_first();
        lemma_cache_find_props(tail, region, t, e);
        assert(forall|i: int| 0 <= i < tail.len() ==> tail[i] == entries[i + 1]);
        assert(cache_find(entries, region, t, e) == if cache_find(tail, region, t, e) == -1 {
            -1
        } else {
            cache_find(tail, region, t, e) + 1
        });
        if cache_find(entries, region, t, e) == -1 {
            assert(cache_find(tail, region, t, e) == -1);
            assert forall|i: int|
                0 <= i < entries.len() implies !cache_match(entries[i], region, t, e) by {
                if i > 0 {
                    assert(entries[i] == tail[i - 1]);
                    assert(!cache_match(tail[i - 1], region, t, e));
                }
            }
        }
        if forall|i: int| 0 <= i < entries.len() ==> !cache_match(entries[i], region, t, e) {
            if cache_find(tail, region, t, e) >= 0 {
                let k = cache_find(tail, region, t, e);
                assert(cache_match(tail[k], region, t, e));
                assert(tail[k] == entries[k + 1]);
                assert(!cache_match(entries[k + 1], region, t, e));
            }
            assert(cache_find(tail, region, t, e) == -1);
        }
        if cache_find(entries, region, t, e) >= 0 {
            let r = cache_find(tail, region, t, e);
            assert(cache_find(entries, region, t, e) == r + 1);
            assert(entries[r + 1] == tail[r]);
            assert forall|j: int|
                0 <= j < r + 1 implies !cache_match(entries[j], region, t, e) by {
                if j > 0 {
                    assert(entries[j] == tail[j - 1]);
                }
            }
        }
    }
}

/// Appending an entry to a cache that has no match for a query makes that
/// entry the query's find result.
pub proof fn lemma_cache_find_push(
    entries: Seq<Binding>,
    b: Binding,
    region: usize,
    t: usize,
    e: Expr,
)
    requires
        cache_find(entries, region, t, e) == -1,
    ensures
        cache_match(b, region, t, e) ==> cache_find(entries.push(b), region, t, e)
            == entries.len(),
        !cache_match(b, region, t, e) ==> cache_find(entries.push(b), region, t, e) == -1,
    decreases entries.len(),
{
    let p = entries.push(b);
    if entries.len() == 0 {
        assert(p.len() == 1);
        assert(p[0] == b);
        assert(p.drop_first() =~= Seq::<Binding>::empty());
        assert(cache_find(p.drop_first(), region, t, e) == -1);
    } else {
        if cache_match(entries[0], region, t, e) {
            assert(cache_find(entries, region, t, e) == 0);
        }
        assert(!cache_match(entries[0], region, t, e));
        let tail = entries.drop_first();
        lemma_cache_find_props(tail, region, t, e);
        let r0 = cache_find(tail, region, t, e);
        assert(cache_find(entries, region, t, e) == if r0 == -1 {
            -1
        } else {
            r0 + 1
        });
        assert(r0 == -1);
        assert(p[0] == entries[0]);
        assert(p.drop_first() =~= tail.push(b));
        lemma_cache_find_push(tail, b, region, t, e);
        let rp = cache_find(p.drop_first(), region, t, e);
        assert(cache_find(p, region, t, e) == if rp == -1 {
            -1
        } else {
            rp + 1
        });
        if cache_match(b, region, t, e) {
            assert(rp == tail.len());
        }
    }
}

/// What one store-expression call does to the cache: a hit returns the
/// cached cell and changes nothing; a miss takes a cell (the supplied one,
/// or a fresh one of the requested type), binds it to the expression by a
/// new equality constraint `cell - e`, and records the entry.
pub open spec fn store_step(
    s: CacheState,
    region: usize,
    e: Expr,
    t: usize,
    target: Option<CellRef>,
) -> (CacheState, Expr) {
    let i = cache_find(s.entries, region, t, e);
    if i >= 0 {
        (s, Expr::Cell(s.entries[i].cell))
    } else {
        let picked = if target is Some {
            (s.columns, target.unwrap())
        } else {
            CellManager::alloc_spec(s.columns, t)
        };
        let cols = picked.0;
        let cell = picked.1;
        let st = CacheState {
            entries: s.entries.push(Binding { region_id: region, cell, cell_type: t, expr: e }),
            columns: cols,
            constraint_exprs: s.constraint_exprs.push(
                Expr::Sum(Box::new(Expr::Cell(cell)), Box::new(Expr::Neg(Box::new(e)))),
            ),
        };
        (st, Expr::Cell(cell))
    }
}

/// The booleanness polynomial of a cell: `cell * (1 - cell)`, zero exactly
/// when the cell holds 0 or 1.
pub open spec fn query_bool_poly(c: CellRef) -> Expr {
    Expr::Product(
        Box::new(Expr::Cell(c)),
        Box::new(
            Expr::Sum(
                Box::new(Expr::Const(crate::field::Fp { v: 1 })),
                Box::new(Expr::Neg(Box::new(Expr::Cell(c)))),
            ),
        ),
    )
}

/// The membership polynomial `prod over s in set of (v - s)`, which is zero
/// exactly when `v` equals some member; the empty product is 1.
pub open spec fn in_set_poly(v: Expr, set: Seq<Expr>) -> Expr
    decreases set.len(),
{
    if set.len() == 0 {
        Expr::Const(crate::field::Fp { v: 1 })
    } else {
        Expr::Product(
            Box::new(in_set_poly(v, set.drop_last())),
            Box::new(Expr::Sum(Box::new(v), Box::new(Expr::Neg(Box::new(set.last()))))),
        )
    }
}

/// The position of the bucket for tag `k` in a table list, or -1.
pub open spec fn table_key_idx(s: Seq<(usize, Vec<TableData>)>, k: usize) -> int
    decreases s.len(),
{
    if s.len() == 0 {
        -1
    } else if s[0].0 == k {
        0
    } else {
        let r = table_key_idx(s.drop_first(), k);
        if r == -1 {
            -1
        } else {
            r + 1
        }
    }
}

pub proof fn lemma_table_key_idx_props(s: Seq<(usize, Vec<TableData>)>, k: usize)
    ensures
        table_key_idx(s, k) == -1 || 0 <= table_key_idx(s, k) < s.len(),
        table_key_idx(s, k) == -1 <==> (forall|i: int| 0 <= i < s.len() ==> s[i].0 != k),
        table_key_idx(s, k) >= 0 ==> {
            &&& table_key_idx(s, k) < s.len()
            &&& s[table_key_idx(s, k)].0 == k
            &&& forall|j: int| 0 <= j < table_key_idx(s, k) ==> s[j].0 != k
        },
    decreases s.len(),
{
    if s.len() > 0 && s[0].0 != k {
        let tail = s.drop_first();
        lemma_table_key_idx_props(tail, k);
        assert(forall|i: int| 0 <= i < tail.len() ==> tail[i] == s[i + 1]);
        if table_key_idx(s, k) == -1 {
            assert forall|i: int| 0 <= i < s.len() implies s[i].0 != k by {
                if i > 0 {
                    assert(s[i] == tail[i - 1]);
                }
            }
        }
        if forall|i: int| 0 <= i < s.len() ==> s[i].0 != k {
            if table_key_idx(tail, k) >= 0 {
                let j = table_key_idx(tail, k);
                assert(tail[j] == s[j + 1]);
            }
        }
        if table_key_idx(s, k) >= 0 {
            let r = table_key_idx(tail, k);
            assert(s[r + 1] == tail[r]);
            assert forall|j: int| 0 <= j < r + 1 implies s[j].0 != k by {
                if j > 0 {
                    assert(s[j] == tail[j - 1]);
                }
            }
        }
    }
}

/// Cache idempotence: storing structurally identical expressions twice,
/// with the same cell type and inside the same region, returns the same
/// cell both times, adds exactly one equality constraint (not two), and
/// the second store changes nothing at all.
pub proof fn lemma_store_idempotent(s: CacheState, region: usize, e: Expr, t: usize)
    ensures
        ({
            let first = store_step(s, region, e, t, Option::None);
            let second = store_step(first.0, region, e, t, Option::None);
            &&& second.0 == first.0
            &&& second.1 == first.1
            &&& first.0.constraint_exprs.len() <= s.constraint_exprs.len() + 1
            &&& (cache_find(s.entries, region, t, e) == -1 ==> first.0.constraint_exprs.len()
                == s.constraint_exprs.len() + 1)
        }),
{
    let i = cache_find(s.entries, region, t, e);
    lemma_cache_find_props(s.entries, region, t, e);
    if i == -1 {
        let b = Binding {
            region_id: region,
            cell: CellManager::alloc_spec(s.columns, t).1,
            cell_type: t,
            expr: e,
        };
        lemma_cache_find_push(s.entries, b, region, t, e);
        let first = store_step(s, region, e, t, Option::None);
        assert(cache_find(first.0.entries, region, t, e) == s.entries.len());
        assert(first.0.entries[s.entries.len() as int] == b);
    }
}

/// Condition round-trip: popping the condition just pushed restores both
/// the condition stack and the effective condition to their values before
/// the push, whatever other bookkeeping happened in between (builder
/// operations other than push and pop leave the condition stack alone).
pub proof fn lemma_condition_round_trip(
    b0: ConstraintBuilder,
    b1: ConstraintBuilder,
    c: Expr,
)
    requires
        b1.conditions@ == b0.conditions@.push(c),
    ensures
        b1.conditions@.len() > 0,
        b1.conditions@.drop_last() == b0.conditions@,
        and_of(b1.conditions@.drop_last()) == b0.effective_condition(),
{
    assert(b1.conditions@.drop_last() =~= b0.conditions@);
}

/// The constraint builder.
#[derive(Debug)]
pub struct ConstraintBuilder {
    /// The accumulated named constraints.
    pub constraints: Vec<Constraint>,
    /// The degree budget outside any region; 0 disables the builder.
    pub max_global_degree: usize,
    /// The degree budget inside the current region.
    pub max_degree: usize,
    /// The live condition stack; the effective condition is its conjunction.
    pub conditions: Vec<Expr>,
    /// Columns whose equality constraints are to be enabled.
    pub equalities: Vec<usize>,
    /// Pending table rows, bucketed by table tag; tags are unique.
    pub tables: Vec<(usize, Vec<TableData>)>,
    /// Pending lookup checks.
    pub lookups: Vec<LookupData>,
    /// The stored-expression cache, in insertion order.
    pub stored_expressions: Vec<StoredExpression>,
    /// The cell allocator, if one is attached.
    pub cell_manager: Option<CellManager>,
    /// The cell-type policy of the circuit being built.
    pub cell_type_policy: CellTypePolicy,
    /// Disables descriptions on generated records.
    pub disable_description: bool,
    /// The active region, 0 meaning none.
    pub region_id: usize,
    /// The challenge scalar used to compress tuples.
    pub lookup_challenge: Option<Expr>,
    /// The condition stack snapshotted when the current region was entered.
    pub state_context: Vec<Expr>,
    /// Where in the constraint list the current region began.
    pub region_constraints_start: usize,
}

impl ConstraintBuilder {
    /// The conjunction of the live condition stack (1 when empty).
    pub open spec fn effective_condition(self) -> Expr {
        and_of(self.conditions@)
    }

    /// The conjunction of the snapshotted condition stack (1 when empty).
    pub open spec fn base_condition(self) -> Expr {
        and_of(self.state_context@)
    }

    /// Whether the cache binds `cell` to `e` in some entry of `region`.
    pub open spec fn region_binds(self, region: usize, cell: CellRef, e: Expr) -> bool {
        exists|i: int|
            0 <= i < self.stored_expressions@.len() && self.stored_expressions@[i].region_id
                == region && self.stored_expressions@[i].cell == cell
                && self.stored_expressions@[i].expr == e
    }

    /// Whether `env` satisfies every binding recorded for the current
    /// region: each bound cell holds its expression's value.  Regions reset
    /// allocation, so distinct regions may bind the same storage slot to
    /// different expressions; an assignment is therefore judged against one
    /// region's bindings, the region in force when the bindings were made,
    /// exactly as the witness pass replays them region by region.
    pub open spec fn env_consistent(self, env: EvalEnv) -> bool {
        forall|c: CellRef, e: Expr|
            #[trigger] self.region_binds(self.region_id, c, e) ==> env.cells[c] % (
            FIELD_MODULUS as int) == e.eval(env)
    }

    /// The name-free cache entries, in order.
    pub open spec fn cache_entries(self) -> Seq<Binding> {
        self.stored_expressions@.map_values(
            |s: StoredExpression|
                Binding {
                    region_id: s.region_id,
                    cell: s.cell,
                    cell_type: s.cell_type,
                    expr: s.expr,
                },
        )
    }

    /// The cache-facing projection of the builder.
    pub open spec fn cache_state(self) -> CacheState {
        CacheState {
            entries: self.cache_entries(),
            columns: if self.cell_manager is Some {
                self.cell_manager.unwrap().columns@
            } else {
                Seq::empty()
            },
            constraint_exprs: self.constraints@.map_values(|c: Constraint| c.expr),
        }
    }

    /// Whether a cell manager is attached and covers every classification
    /// the cell-type policy can pick.
    pub open spec fn cm_ready(self) -> bool {
        &&& self.cell_manager is Some
        &&& self.cell_type_policy.covered_by(self.cell_manager.unwrap())
    }

    /// Well-formedness: table tags are unique, and within one region the
    /// cache holds at most one entry per (cell type, expression identity).
    pub open spec fn wf(self) -> bool {
        &&& forall|i: int, j: int|
            0 <= i < j < self.tables@.len() ==> self.tables@[i].0 != self.tables@[j].0
        &&& forall|i: int, j: int|
            0 <= i < j < self.stored_expressions@.len() ==> !(
            self.stored_expressions@[i].region_id == self.stored_expressions@[j].region_id
                && self.stored_expressions@[i].cell_type == self.stored_expressions@[j].cell_type
                && self.stored_expressions@[i].expr == self.stored_expressions@[j].expr)
    }
}

/// Whether every binding of `a`, in every region, is still a binding of
/// `b`.
pub open spec fn bindings_extend(a: ConstraintBuilder, b: ConstraintBuilder) -> bool {
    forall|r: usize, c: CellRef, e: Expr|
        #[trigger] a.region_binds(r, c, e) ==> b.region_binds(r, c, e)
}

pub proof fn lemma_consistent_mono(a: ConstraintBuilder, b: ConstraintBuilder, env: EvalEnv)
    requires
        bindings_extend(a, b),
        a.region_id == b.region_id,
        b.env_consistent(env),
    ensures
        a.env_consistent(env),
{
}

pub proof fn lemma_extend_trans(a: ConstraintBuilder, b: ConstraintBuilder, c: ConstraintBuilder)
    requires
        bindings_extend(a, b),
        bindings_extend(b, c),
    ensures
        bindings_extend(a, c),
{
}

/// A prefix of a prefix is a prefix.
pub proof fn lemma_prefix_trans<T>(a: Seq<T>, b: Seq<T>, c: Seq<T>)
    requires
        a.len() <= b.len() <= c.len(),
        b.subrange(0, a.len() as int) == a,
        c.subrange(0, b.len() as int) == b,
    ensures
        c.subrange(0, a.len() as int) == a,
{
    assert forall|i: int| 0 <= i < a.len() implies c.subrange(0, a.len() as int)[i] == a[i] by {
        assert(b.subrange(0, a.len() as int)[i] == a[i]);
        assert(c.subrange(0, b.len() as int)[i] == b[i]);
    }
    assert(c.subrange(0, a.len() as int) =~= a);
}

/// Adds two degrees, saturating at the platform limit.
fn sat_add(a: usize, b: usize) -> (r: usize)
    ensures
        a + b <= usize::MAX ==> r == a + b,
        a + b > usize::MAX ==> r == usize::MAX,
{
    if a > usize::MAX - b {
        usize::MAX
    } else {
        a + b
    }
}

/// Clones a vector of expressions, preserving it exactly.
pub fn clone_exprs(v: &Vec<Expr>) -> (r: Vec<Expr>)
    ensures
        r@ == v@,
{
    let r = v.clone();
    proof {
        assert(r@ =~= v@);
    }
    r
}

impl Clone for Constraint {
    fn clone(&self) -> (s: Self)
        ensures
            s == *self,
    {
        Constraint { name: self.name.clone(), expr: self.expr.clone() }
    }
}

impl Clone for TableData {
    fn clone(&self) -> (s: Self)
        ensures
            s@ == self@,
    {
        let s = TableData {
            description: self.description.clone(),
            regional_condition: self.regional_condition.clone(),
            local_condition: self.local_condition.clone(),
            values: clone_exprs(&self.values),
            region_id: self.region_id,
        };
        proof {
            assert(s@ =~= self@);
        }
        s
    }
}

impl Clone for LookupData {
    fn clone(&self) -> (s: Self)
        ensures
            s@ == self@,
    {
        let s = LookupData {
            description: self.description.clone(),
            regional_condition: self.regional_condition.clone(),
            local_condition: self.local_condition.clone(),
            values: clone_exprs(&self.values),
            table: clone_exprs(&self.table),
            region_id: self.region_id,
        };
        proof {
            assert(s@ =~= self@);
        }
        s
    }
}

impl Clone for StoredExpression {
    fn clone(&self) -> (s: Self)
        ensures
            s == *self,
    {
        StoredExpression {
            name: self.name.clone(),
            region_id: self.region_id,
            cell: self.cell,
            cell_type: self.cell_type,
            expr: self.expr.clone(),
        }
    }
}

impl TableData {
    /// The condition under which this row is active: regional times local.
    pub fn condition(&self) -> (r: Expr)
        ensures
            r == Expr::Product(
                Box::new(self.regional_condition),
                Box::new(self.local_condition),
            ),
    {
        Expr::product(self.regional_condition.clone(), self.local_condition.clone())
    }
}

impl LookupData {
    /// The condition under which this lookup is active: regional times local.
    pub fn condition(&self) -> (r: Expr)
        ensures
            r == Expr::Product(
                Box::new(self.regional_condition),
                Box::new(self.local_condition),
            ),
    {
        Expr::product(self.regional_condition.clone(), self.local_condition.clone())
    }
}

impl ConstraintBuilder {
    /// A fresh builder with the given global degree budget, optional cell
    /// manager and optional compression challenge.  A zero budget yields a
    /// disabled builder whose constraint-adding operations do nothing.
    pub fn new(
        max_degree: usize,
        cell_manager: Option<CellManager>,
        lookup_challenge: Option<Expr>,
        cell_type_policy: CellTypePolicy,
    ) -> (r: ConstraintBuilder)
        ensures
            r.constraints@.len() == 0,
            r.max_global_degree == max_degree,
            r.max_degree == max_degree,
            r.conditions@.len() == 0,
            r.equalities@.len() == 0,
            r.tables@.len() == 0,
            r.lookups@.len() == 0,
            r.stored_expressions@.len() == 0,
            r.cell_manager == cell_manager,
            r.cell_type_policy == cell_type_policy,
            r.disable_description == false,
            r.region_id == 0,
            r.lookup_challenge == lookup_challenge,
            r.state_context@.len() == 0,
            r.region_constraints_start == 0,
            r.wf(),
    {
        ConstraintBuilder {
            constraints: Vec::new(),
            max_global_degree: max_degree,
            max_degree,
            conditions: Vec::new(),
            equalities: Vec::new(),
            tables: Vec::new(),
            lookups: Vec::new(),
            stored_expressions: Vec::new(),
            cell_manager,
            cell_type_policy,
            disable_description: false,
            region_id: 0,
            lookup_challenge,
            state_context: Vec::new(),
            region_constraints_start: 0,
        }
    }

    /// Clears every accumulation, returning the builder to its fresh state;
    /// an attached cell manager is reset too.
    pub fn restart(&mut self)
        ensures
            final(self).constraints@.len() == 0,
            final(self).conditions@.len() == 0,
            final(self).equalities@.len() == 0,
            final(self).tables@.len() == 0,
            final(self).lookups@.len() == 0,
            final(self).stored_expressions@.len() == 0,
            final(self).region_id == 0,
            final(self).state_context@.len() == 0,
            final(self).region_constraints_start == 0,
            final(self).max_global_degree == old(self).max_global_degree,
            final(self).max_degree == old(self).max_degree,
            final(self).cell_type_policy == old(self).cell_type_policy,
            final(self).disable_description == old(self).disable_description,
            final(self).lookup_challenge == old(self).lookup_challenge,
            final(self).cell_manager is Some <==> old(self).cell_manager is Some,
            final(self).cell_manager is Some ==> ({
                let cm = final(self).cell_manager.unwrap();
                &&& cm.same_layout(old(self).cell_manager.unwrap())
                &&& forall|i: int| 0 <= i < cm.columns@.len() ==> cm.columns@[i].fill == 0
            }),
            final(self).wf(),
    {
        self.constraints = Vec::new();
        self.conditions = Vec::new();
        self.equalities = Vec::new();
        self.tables = Vec::new();
        self.lookups = Vec::new();
        self.stored_expressions = Vec::new();
        self.region_id = 0;
        self.state_context = Vec::new();
        self.region_constraints_start = 0;
        if self.cell_manager.is_some() {
            let mut cm = self.cell_manager.take().unwrap();
            cm.restart();
            self.cell_manager = Some(cm);
        }
    }

    /// Attaches a cell manager.
    pub fn set_cell_manager(&mut self, cell_manager: CellManager)
        ensures
            *final(self) == (ConstraintBuilder { cell_manager: Some(cell_manager), ..*old(self) }),
    {
        self.cell_manager = Some(cell_manager);
    }

    /// Replaces the global degree budget.
    pub fn set_max_degree(&mut self, max_degree: usize)
        ensures
            *final(self) == (ConstraintBuilder { max_global_degree: max_degree, ..*old(self) }),
    {
        self.max_global_degree = max_degree;
    }

    /// Switches generated descriptions on or off.
    pub fn set_disable_description(&mut self, disable_description: bool)
        ensures
            *final(self) == (ConstraintBuilder { disable_description, ..*old(self) }),
    {
        self.disable_description = disable_description;
    }

    /// Pushes one more conjunct onto the condition stack.
    pub fn push_condition(&mut self, condition: Expr)
        ensures
            *final(self) == (ConstraintBuilder {
                conditions: final(self).conditions,
                ..*old(self)
            }),
            final(self).conditions@ == old(self).conditions@.push(condition),
    {
        self.conditions.push(condition);
    }

    /// Pops the most recent conjunct off the condition stack.
    pub fn pop_condition(&mut self)
        ensures
            *final(self) == (ConstraintBuilder {
                conditions: final(self).conditions,
                ..*old(self)
            }),
            old(self).conditions@.len() > 0 ==> final(self).conditions@ == old(
                self,
            ).conditions@.drop_last(),
            old(self).conditions@.len() == 0 ==> final(self).conditions@ == old(
                self,
            ).conditions@,
    {
        let popped = self.conditions.pop();
    }

    /// The conjunction of the live conditions, or `None` when none are live.
    pub fn get_condition(&self) -> (r: Option<Expr>)
        ensures
            match r {
                Option::Some(c) => self.conditions@.len() > 0 && c == self.effective_condition(),
                Option::None => self.conditions@.len() == 0,
            },
    {
        if self.conditions.len() == 0 {
            None
        } else {
            Some(crate::expr::and_exprs(&self.conditions))
        }
    }

    /// The effective condition: the conjunction of the live conditions,
    /// the constant 1 when none are live.
    pub fn get_condition_expr(&self) -> (r: Expr)
        ensures
            r == self.effective_condition(),
    {
        crate::expr::and_exprs(&self.conditions)
    }

    /// Marks a column as needing its equality constraint enabled.
    pub fn enable_equality(&mut self, column: usize)
        ensures
            *final(self) == (ConstraintBuilder {
                equalities: final(self).equalities,
                ..*old(self)
            }),
            final(self).equalities@ == old(self).equalities@.push(column),
    {
        self.equalities.push(column);
    }

    /// Takes `count` fresh cells of the given classification from the
    /// attached cell manager.  Querying without an allocator is a
    /// circuit-author error and is ruled out by the precondition.
    pub fn query_cells_dyn(&mut self, cell_type: usize, count: usize) -> (r: Vec<CellRef>)
        requires
            old(self).cell_manager is Some,
            old(self).cell_manager.unwrap().has_type(cell_type),
        ensures
            *final(self) == (ConstraintBuilder {
                cell_manager: final(self).cell_manager,
                ..*old(self)
            }),
            final(self).cell_manager is Some,
            ({
                let (cols, cells) = CellManager::query_spec(
                    old(self).cell_manager.unwrap().columns@,
                    cell_type,
                    count as nat,
                );
                final(self).cell_manager.unwrap().columns@ == cols && r@ == cells
            }),
            r@.len() == count,
            final(self).cell_manager.unwrap().same_layout(old(self).cell_manager.unwrap()),
            final(self).cell_manager.unwrap().height == old(self).cell_manager.unwrap().height,
            final(self).cell_manager.unwrap().has_type(cell_type),
    {
        let mut cm = self.cell_manager.take().unwrap();
        let r = cm.query_cells(cell_type, count);
        self.cell_manager = Some(cm);
        r
    }

    /// One fresh cell of the policy's default classification.
    pub fn query_default(&mut self) -> (r: CellRef)
        requires
            old(self).cell_manager is Some,
            old(self).cell_manager.unwrap().has_type(old(self).cell_type_policy.default_type),
        ensures
            *final(self) == (ConstraintBuilder {
                cell_manager: final(self).cell_manager,
                ..*old(self)
            }),
            final(self).cell_manager is Some,
            (final(self).cell_manager.unwrap().columns@, r) == CellManager::alloc_spec(
                old(self).cell_manager.unwrap().columns@,
                old(self).cell_type_policy.default_type,
            ),
            final(self).cell_manager.unwrap().same_layout(old(self).cell_manager.unwrap()),
            final(self).cell_manager.unwrap().height == old(self).cell_manager.unwrap().height,
    {
        let t = self.cell_type_policy.default_type;
        self.query_one(t)
    }

    /// One fresh cell of the given classification.
    pub fn query_one(&mut self, cell_type: usize) -> (r: CellRef)
        requires
            old(self).cell_manager is Some,
            old(self).cell_manager.unwrap().has_type(cell_type),
        ensures
            *final(self) == (ConstraintBuilder {
                cell_manager: final(self).cell_manager,
                ..*old(self)
            }),
            final(self).cell_manager is Some,
            (final(self).cell_manager.unwrap().columns@, r) == CellManager::alloc_spec(
                old(self).cell_manager.unwrap().columns@,
                cell_type,
            ),
            final(self).cell_manager.unwrap().same_layout(old(self).cell_manager.unwrap()),
            final(self).cell_manager.unwrap().height == old(self).cell_manager.unwrap().height,
            final(self).cell_manager.unwrap().has_type(cell_type),
    {
        let mut cm = self.cell_manager.take().unwrap();
        let r = cm.take_one(cell_type);
        self.cell_manager = Some(cm);
        r
    }

    /// One fresh cell of the given classification; same as `query_one`.
    pub fn query_cell_with_type(&mut self, cell_type: usize) -> (r: CellRef)
        requires
            old(self).cell_manager is Some,
            old(self).cell_manager.unwrap().has_type(cell_type),
        ensures
            *final(self) == (ConstraintBuilder {
                cell_manager: final(self).cell_manager,
                ..*old(self)
            }),
            final(self).cell_manager is Some,
            (final(self).cell_manager.unwrap().columns@, r) == CellManager::alloc_spec(
                old(self).cell_manager.unwrap().columns@,
                cell_type,
            ),
            final(self).cell_manager.unwrap().same_layout(old(self).cell_manager.unwrap()),
            final(self).cell_manager.unwrap().height == old(self).cell_manager.unwrap().height,
    {
        self.query_one(cell_type)
    }

    /// `N` fresh cells of the policy's byte classification.  Querying a
    /// policy without one is a circuit-author error and is ruled out by the
    /// precondition.
    pub fn query_bytes<const N: usize>(&mut self) -> (r: Vec<CellRef>)
        requires
            old(self).cell_manager is Some,
            old(self).cell_type_policy.byte_type is Some,
            old(self).cell_manager.unwrap().has_type(
                old(self).cell_type_policy.byte_type.unwrap(),
            ),
        ensures
            *final(self) == (ConstraintBuilder {
                cell_manager: final(self).cell_manager,
                ..*old(self)
            }),
            final(self).cell_manager is Some,
            ({
                let (cols, cells) = CellManager::query_spec(
                    old(self).cell_manager.unwrap().columns@,
                    old(self).cell_type_policy.byte_type.unwrap(),
                    N as nat,
                );
                final(self).cell_manager.unwrap().columns@ == cols && r@ == cells
            }),
            r@.len() == N,
            final(self).cell_manager.unwrap().same_layout(old(self).cell_manager.unwrap()),
            final(self).cell_manager.unwrap().height == old(self).cell_manager.unwrap().height,
    {
        let t = match self.cell_type_policy.byte_type {
            Option::Some(t) => t,
            Option::None => unreached(),
        };
        self.query_cells_dyn(t, N)
    }

    /// Looks the pair (expression identity, cell type) up in the current
    /// region's slice of the stored-expression cache.
    pub fn find_stored_expression(&self, expr: &Expr, cell_type: usize) -> (r: Option<
        &StoredExpression,
    >)
        ensures
            ({
                let i = cache_find(self.cache_entries(), self.region_id, cell_type, *expr);
                match r {
                    Option::Some(s) => 0 <= i && *s == self.stored_expressions@[i],
                    Option::None => i == -1,
                }
            }),
    {
        proof {
            lemma_cache_find_props(self.cache_entries(), self.region_id, cell_type, *expr);
        }
        let n = self.stored_expressions.len();
        let mut i: usize = 0;
        while i < n
            invariant
                i <= n,
                n == self.stored_expressions@.len(),
                forall|j: int|
                    0 <= j < i ==> !cache_match(
                        self.cache_entries()[j],
                        self.region_id,
                        cell_type,
                        *expr,
                    ),
            decreases n - i,
        {
            let entry = &self.stored_expressions[i];
            if entry.region_id == self.region_id && entry.cell_type == cell_type
                && crate::expr::same_expr(&entry.expr, expr) {
                proof {
                    let es = self.cache_entries();
                    lemma_cache_find_props(es, self.region_id, cell_type, *expr);
                    assert(cache_match(es[i as int], self.region_id, cell_type, *expr));
                    let k = cache_find(es, self.region_id, cell_type, *expr);
                    assert(k != -1);
                    assert(0 <= k < es.len());
                    assert(!(k < i)) by {
                        if k < i {
                            assert(!cache_match(es[k], self.region_id, cell_type, *expr));
                        }
                    }
                    assert(!(k > i)) by {
                        if k > i {
                            assert(!cache_match(es[i as int], self.region_id, cell_type, *expr));
                        }
                    }
                }
                return Some(entry);
            }
            proof {
                assert(!cache_match(self.cache_entries()[i as int], self.region_id, cell_type,
                    *expr));
            }
            i = i + 1;
        }
        None
    }

    /// Binds an expression to a cell, deduplicating through the cache.
    ///
    /// On a hit the cached cell's expression is returned and nothing
    /// changes.  On a miss a cell is taken (the supplied one, or a fresh
    /// one of the requested classification), the equality constraint
    /// `cell - expr` is appended, the entry is recorded under the current
    /// region, and the cell's expression is returned.  The whole step
    /// follows the functional model `store_step`.
    pub fn store_expression(
        &mut self,
        name: &str,
        expr: Expr,
        cell_type: usize,
        target_cell: Option<CellRef>,
    ) -> (r: Expr)
        requires
            target_cell is None ==> old(self).cell_manager is Some && old(
                self,
            ).cell_manager.unwrap().has_type(cell_type),
        ensures
            ({
                let st = store_step(
                    old(self).cache_state(),
                    old(self).region_id,
                    expr,
                    cell_type,
                    target_cell,
                );
                final(self).cache_state() == st.0 && r == st.1
            }),
            cache_find(old(self).cache_entries(), old(self).region_id, cell_type, expr) >= 0
                ==> *final(self) == *old(self),
            *final(self) == (ConstraintBuilder {
                constraints: final(self).constraints,
                stored_expressions: final(self).stored_expressions,
                cell_manager: final(self).cell_manager,
                ..*old(self)
            }),
            old(self).constraints@.len() <= final(self).constraints@.len() <= old(
                self,
            ).constraints@.len() + 1,
            final(self).constraints@.subrange(0, old(self).constraints@.len() as int) == old(
                self,
            ).constraints@,
            forall|i: int|
                old(self).constraints@.len() <= i < final(self).constraints@.len()
                    ==> final(self).constraints@[i].name@ == name@,
            final(self).stored_expressions@.subrange(
                0,
                old(self).stored_expressions@.len() as int,
            ) == old(self).stored_expressions@,
            old(self).stored_expressions@.len() <= final(self).stored_expressions@.len() <= old(
                self,
            ).stored_expressions@.len() + 1,
            (final(self).cell_manager is Some) == (old(self).cell_manager is Some),
            old(self).cell_manager is Some ==> {
                &&& final(self).cell_manager.unwrap().same_layout(old(self).cell_manager.unwrap())
                &&& final(self).cell_manager.unwrap().height == old(
                    self,
                ).cell_manager.unwrap().height
            },
            bindings_extend(*old(self), *final(self)),
            exists|c: CellRef|
                r == Expr::Cell(c) && final(self).region_binds(old(self).region_id, c, expr),
            old(self).wf() ==> final(self).wf(),
    {
        let ghost s0 = old(self).cache_state();
        proof {
            lemma_cache_find_props(old(self).cache_entries(), old(self).region_id, cell_type,
                expr);
        }
        let found = self.find_stored_expression(&expr, cell_type);
        match found {
            Option::Some(entry) => {
                let r = Expr::cell(entry.cell);
                proof {
                    let k = cache_find(s0.entries, old(self).region_id, cell_type, expr);
                    assert(s0.entries[k].cell == self.stored_expressions@[k].cell);
                    assert(self.stored_expressions@[k].region_id == old(self).region_id);
                    assert(self.region_binds(
                        old(self).region_id,
                        self.stored_expressions@[k].cell,
                        expr,
                    ));
                }
                r
            },
            Option::None => {
                let cell = match target_cell {
                    Option::Some(tc) => tc,
                    Option::None => self.query_one(cell_type),
                };
                let bind_expr = Expr::difference(Expr::cell(cell), expr.clone());
                self.constraints.push(Constraint { name: name.to_owned(), expr: bind_expr });
                let region_id = self.region_id;
                self.stored_expressions.push(
                    StoredExpression {
                        name: name.to_owned(),
                        region_id,
                        cell,
                        cell_type,
                        expr,
                    },
                );
                proof {
                    let st = store_step(s0, old(self).region_id, expr, cell_type, target_cell);
                    let b = Binding {
                        region_id: old(self).region_id,
                        cell,
                        cell_type,
                        expr,
                    };
                    assert(self.cache_entries() =~= s0.entries.push(b));
                    assert(self.cache_state().constraint_exprs =~= s0.constraint_exprs.push(
                        st.0.constraint_exprs.last(),
                    ));
                    assert(self.cache_state() =~= st.0);
                    let n = self.stored_expressions@.len() - 1;
                    assert(self.stored_expressions@[n].cell == cell);
                    assert(self.region_binds(old(self).region_id, cell, expr));
                    assert(final(self).constraints@.subrange(0, old(self).constraints@.len() as int)
                        =~= old(self).constraints@);
                    assert(final(self).stored_expressions@.subrange(
                        0,
                        old(self).stored_expressions@.len() as int,
                    ) =~= old(self).stored_expressions@);
                    assert forall|rg: usize, c: CellRef, e: Expr|
                        old(self).region_binds(rg, c, e) implies self.region_binds(rg, c, e) by {
                        let i = choose|i: int|
                            0 <= i < old(self).stored_expressions@.len() && old(
                                self,
                            ).stored_expressions@[i].region_id == rg && old(
                                self,
                            ).stored_expressions@[i].cell == c && old(
                                self,
                            ).stored_expressions@[i].expr == e;
                        assert(self.stored_expressions@[i].region_id == rg);
                        assert(self.stored_expressions@[i].cell == c);
                        assert(self.stored_expressions@[i].expr == e);
                    }
                    if old(self).wf() {
                        assert forall|i: int, j: int|
                            0 <= i < j < self.stored_expressions@.len() implies !(
                        self.stored_expressions@[i].region_id
                            == self.stored_expressions@[j].region_id
                            && self.stored_expressions@[i].cell_type
                            == self.stored_expressions@[j].cell_type
                            && self.stored_expressions@[i].expr
                            == self.stored_expressions@[j].expr) by {
                            if j == self.stored_expressions@.len() - 1 {
                                assert(!cache_match(
                                    old(self).cache_entries()[i],
                                    old(self).region_id,
                                    cell_type,
                                    expr,
                                ));
                            }
                        }
                    }
                }
                Expr::cell(cell)
            },
        }
    }

    /// The expression actually registered for a request to constrain `e`
    /// to zero: `e` gated by the effective condition.
    pub open spec fn gated_constraint(self, e: Expr) -> Expr {
        if self.conditions@.len() == 0 {
            e
        } else {
            Expr::Product(Box::new(self.effective_condition()), Box::new(e))
        }
    }

    /// The conditions under which a constraint may be added: a ready
    /// allocator and a sane budget whenever a region is active and the
    /// builder is enabled.
    pub open spec fn can_add(self, e: Expr) -> bool {
        (self.max_global_degree != 0 && self.region_id != 0) ==> {
            &&& self.cm_ready()
            &&& self.max_degree < usize::MAX
            &&& self.max_degree >= 2 || self.gated_constraint(e).deg() <= self.max_degree
        }
    }

    /// Statically checks that a registered degree respects the budget in
    /// force; a violation is a circuit-author error, ruled out by the
    /// precondition (the check cannot fire at run time).
    pub fn validate_degree(&self, degree: usize, _name: &str)
        requires
            (self.max_global_degree > 0 && self.region_id != 0) ==> degree <= self.max_degree,
    {
        if self.max_global_degree > 0 && self.region_id != 0 {
            assert(degree <= self.max_degree);
        }
    }

    /// Registers the constraint `name: expr == 0`, gated by the effective
    /// condition and reduced to the degree budget by splitting.  A disabled
    /// builder (zero global budget) ignores the request.
    pub fn add_constraint(&mut self, name: &str, constraint: Expr)
        requires
            old(self).can_add(constraint),
        ensures
            old(self).max_global_degree == 0 ==> *final(self) == *old(self),
            *final(self) == (ConstraintBuilder {
                constraints: final(self).constraints,
                stored_expressions: final(self).stored_expressions,
                cell_manager: final(self).cell_manager,
                ..*old(self)
            }),
            final(self).constraints@.len() >= old(self).constraints@.len(),
            final(self).constraints@.subrange(0, old(self).constraints@.len() as int) == old(
                self,
            ).constraints@,
            final(self).stored_expressions@.len() >= old(self).stored_expressions@.len(),
            final(self).stored_expressions@.subrange(
                0,
                old(self).stored_expressions@.len() as int,
            ) == old(self).stored_expressions@,
            (final(self).cell_manager is Some) == (old(self).cell_manager is Some),
            old(self).cell_manager is Some ==> {
                &&& final(self).cell_manager.unwrap().same_layout(old(self).cell_manager.unwrap())
                &&& final(self).cell_manager.unwrap().height == old(
                    self,
                ).cell_manager.unwrap().height
            },
            old(self).cm_ready() ==> final(self).cm_ready(),
            bindings_extend(*old(self), *final(self)),
            old(self).wf() ==> final(self).wf(),
            old(self).max_global_degree != 0 ==> {
                &&& final(self).constraints@.len() > old(self).constraints@.len()
                &&& final(self).constraints@.last().name@ == name@
                &&& (old(self).region_id != 0 ==> final(self).constraints@.last().expr.deg()
                    <= old(self).max_degree)
            },
            old(self).max_global_degree != 0 ==> (forall|env: EvalEnv|
                #[trigger] final(self).env_consistent(env)
                    ==> final(self).constraints@.last().expr.eval(env) == old(
                    self,
                ).gated_constraint(constraint).eval(env)),
            (old(self).max_global_degree != 0 && !(old(self).gated_constraint(constraint).deg()
                > old(self).max_degree && old(self).region_id != 0)) ==> {
                &&& final(self).constraints@.len() == old(self).constraints@.len() + 1
                &&& final(self).stored_expressions@ == old(self).stored_expressions@
                &&& final(self).cell_manager == old(self).cell_manager
                &&& final(self).constraints@.last().expr == old(self).gated_constraint(constraint)
            },
    {
        if self.max_global_degree == 0 {
            return ;
        }
        let gated = match self.get_condition() {
            Option::Some(condition) => Expr::product(condition, constraint),
            Option::None => constraint,
        };
        let ghost m0 = *old(self);
        let reduced = self.split_expression(name, gated);
        let ghost m1 = *self;
        let d = reduced.degree();
        self.validate_degree(d, name);
        self.constraints.push(Constraint { name: name.to_owned(), expr: reduced });
        proof {
            assert(self.constraints@.subrange(0, m0.constraints@.len() as int) =~= m1.constraints@
                .subrange(0, m0.constraints@.len() as int));
            assert(self.stored_expressions@ == m1.stored_expressions@);
            assert forall|rg: usize, c: CellRef, e: Expr|
                m1.region_binds(rg, c, e) implies self.region_binds(rg, c, e) by {
                let i = choose|i: int|
                    0 <= i < m1.stored_expressions@.len() && m1.stored_expressions@[i].region_id
                        == rg && m1.stored_expressions@[i].cell == c
                        && m1.stored_expressions@[i].expr == e;
                assert(self.stored_expressions@[i].region_id == rg);
                assert(self.stored_expressions@[i].cell == c);
            }
            lemma_extend_trans(m0, m1, *self);
            assert forall|env: EvalEnv|
                self.env_consistent(env) implies self.constraints@.last().expr.eval(env)
                == m0.gated_constraint(constraint).eval(env) by {
                lemma_consistent_mono(m1, *self, env);
                assert(reduced.eval(env) == gated.eval(env));
            }
        }
    }

    /// Registers `name: expr == 0`.
    pub fn require_zero(&mut self, name: &str, constraint: Expr)
        requires
            old(self).can_add(constraint),
        ensures
            *final(self) == (ConstraintBuilder {
                constraints: final(self).constraints,
                stored_expressions: final(self).stored_expressions,
                cell_manager: final(self).cell_manager,
                ..*old(self)
            }),
            final(self).constraints@.subrange(0, old(self).constraints@.len() as int) == old(
                self,
            ).constraints@,
            final(self).stored_expressions@.subrange(
                0,
                old(self).stored_expressions@.len() as int,
            ) == old(self).stored_expressions@,
            final(self).constraints@.len() >= old(self).constraints@.len(),
            final(self).stored_expressions@.len() >= old(self).stored_expressions@.len(),
            old(self).cm_ready() ==> final(self).cm_ready(),
            bindings_extend(*old(self), *final(self)),
            old(self).wf() ==> final(self).wf(),
            old(self).max_global_degree != 0 ==> final(self).constraints@.len() > old(
                self,
            ).constraints@.len(),
            old(self).max_global_degree != 0 ==> (forall|env: EvalEnv|
                #[trigger] final(self).env_consistent(env)
                    ==> final(self).constraints@.last().expr.eval(env) == old(
                    self,
                ).gated_constraint(constraint).eval(env)),
    {
        self.add_constraint(name, constraint);
    }

    /// Registers `name: lhs == rhs`, as the zero-constraint `lhs - rhs`.
    pub fn require_equal(&mut self, name: &str, lhs: Expr, rhs: Expr)
        requires
            old(self).can_add(Expr::Sum(Box::new(lhs), Box::new(Expr::Neg(Box::new(rhs))))),
        ensures
            *final(self) == (ConstraintBuilder {
                constraints: final(self).constraints,
                stored_expressions: final(self).stored_expressions,
                cell_manager: final(self).cell_manager,
                ..*old(self)
            }),
            final(self).constraints@.subrange(0, old(self).constraints@.len() as int) == old(
                self,
            ).constraints@,
            final(self).stored_expressions@.subrange(
                0,
                old(self).stored_expressions@.len() as int,
            ) == old(self).stored_expressions@,
            final(self).constraints@.len() >= old(self).constraints@.len(),
            final(self).stored_expressions@.len() >= old(self).stored_expressions@.len(),
            old(self).cm_ready() ==> final(self).cm_ready(),
            bindings_extend(*old(self), *final(self)),
            old(self).wf() ==> final(self).wf(),
            old(self).max_global_degree != 0 ==> final(self).constraints@.len() > old(
                self,
            ).constraints@.len(),
            old(self).max_global_degree != 0 ==> (forall|env: EvalEnv|
                #[trigger] final(self).env_consistent(env)
                    ==> final(self).constraints@.last().expr.eval(env) == old(
                    self,
                ).gated_constraint(
                    Expr::Sum(Box::new(lhs), Box::new(Expr::Neg(Box::new(rhs)))),
                ).eval(env)),
    {
        self.add_constraint(name, Expr::difference(lhs, rhs));
    }

    /// Registers `name: value is boolean`, as the zero-constraint
    /// `value * (1 - value)`.
    pub fn require_boolean(&mut self, name: &str, value: Expr)
        requires
            old(self).can_add(
                Expr::Product(
                    Box::new(value),
                    Box::new(
                        Expr::Sum(
                            Box::new(Expr::Const(crate::field::Fp { v: 1 })),
                            Box::new(Expr::Neg(Box::new(value))),
                        ),
                    ),
                ),
            ),
        ensures
            *final(self) == (ConstraintBuilder {
                constraints: final(self).constraints,
                stored_expressions: final(self).stored_expressions,
                cell_manager: final(self).cell_manager,
                ..*old(self)
            }),
            final(self).constraints@.subrange(0, old(self).constraints@.len() as int) == old(
                self,
            ).constraints@,
            final(self).stored_expressions@.subrange(
                0,
                old(self).stored_expressions@.len() as int,
            ) == old(self).stored_expressions@,
            final(self).constraints@.len() >= old(self).constraints@.len(),
            final(self).stored_expressions@.len() >= old(self).stored_expressions@.len(),
            old(self).cm_ready() ==> final(self).cm_ready(),
            bindings_extend(*old(self), *final(self)),
            old(self).wf() ==> final(self).wf(),
            old(self).max_global_degree != 0 ==> final(self).constraints@.len() > old(
                self,
            ).constraints@.len(),
            old(self).max_global_degree != 0 ==> (forall|env: EvalEnv|
                #[trigger] final(self).env_consistent(env)
                    ==> final(self).constraints@.last().expr.eval(env) == old(
                    self,
                ).gated_constraint(
                    Expr::Product(
                        Box::new(value),
                        Box::new(
                            Expr::Sum(
                                Box::new(Expr::Const(crate::field::Fp { v: 1 })),
                                Box::new(Expr::Neg(Box::new(value))),
                            ),
                        ),
                    ),
                ).eval(env)),
            ({
                let poly = Expr::Product(
                    Box::new(value),
                    Box::new(
                        Expr::Sum(
                            Box::new(Expr::Const(crate::field::Fp { v: 1 })),
                            Box::new(Expr::Neg(Box::new(value))),
                        ),
                    ),
                );
                (old(self).max_global_degree != 0 && !(old(self).gated_constraint(poly).deg()
                    > old(self).max_degree && old(self).region_id != 0)) ==> {
                    &&& final(self).constraints@.len() == old(self).constraints@.len() + 1
                    &&& final(self).stored_expressions@ == old(self).stored_expressions@
                    &&& final(self).cell_manager == old(self).cell_manager
                    &&& final(self).constraints@.last().expr == old(self).gated_constraint(poly)
                }
            }),
            old(self).max_global_degree == 0 ==> *final(self) == *old(self),
    {
        let poly = Expr::product(value.clone(), Expr::complement(value));
        self.add_constraint(name, poly);
    }

    /// Registers `name: value is a member of set`, as the zero-constraint
    /// `prod over s in set of (value - s)`.
    pub fn require_in_set(&mut self, name: &str, value: Expr, set: Vec<Expr>)
        requires
            old(self).can_add(in_set_poly(value, set@)),
        ensures
            *final(self) == (ConstraintBuilder {
                constraints: final(self).constraints,
                stored_expressions: final(self).stored_expressions,
                cell_manager: final(self).cell_manager,
                ..*old(self)
            }),
            final(self).constraints@.subrange(0, old(self).constraints@.len() as int) == old(
                self,
            ).constraints@,
            final(self).stored_expressions@.subrange(
                0,
                old(self).stored_expressions@.len() as int,
            ) == old(self).stored_expressions@,
            final(self).constraints@.len() >= old(self).constraints@.len(),
            final(self).stored_expressions@.len() >= old(self).stored_expressions@.len(),
            old(self).cm_ready() ==> final(self).cm_ready(),
            bindings_extend(*old(self), *final(self)),
            old(self).wf() ==> final(self).wf(),
            old(self).max_global_degree != 0 ==> final(self).constraints@.len() > old(
                self,
            ).constraints@.len(),
            old(self).max_global_degree != 0 ==> (forall|env: EvalEnv|
                #[trigger] final(self).env_consistent(env)
                    ==> final(self).constraints@.last().expr.eval(env) == old(
                    self,
                ).gated_constraint(in_set_poly(value, set@)).eval(env)),
    {
        let mut acc: Expr = Expr::constant(1);
        let mut i: usize = 0;
        while i < set.len()
            invariant
                i <= set@.len(),
                acc == in_set_poly(value, set@.subrange(0, i as int)),
            decreases set@.len() - i,
        {
            proof {
                let pre = set@.subrange(0, i as int);
                let post = set@.subrange(0, i + 1);
                assert(post.drop_last() =~= pre);
                assert(post.last() == set@[i as int]);
            }
            acc = Expr::product(acc, Expr::difference(value.clone(), set[i].clone()));
            i = i + 1;
        }
        proof {
            assert(set@.subrange(0, set@.len() as int) =~= set@);
        }
        self.add_constraint(name, acc);
    }

    /// Registers each of the given constraints in order.
    pub fn add_constraints(&mut self, constraints: Vec<Constraint>)
        requires
            forall|i: int|
                0 <= i < constraints@.len() ==> old(self).can_add(
                    #[trigger] constraints@[i].expr,
                ),
        ensures
            *final(self) == (ConstraintBuilder {
                constraints: final(self).constraints,
                stored_expressions: final(self).stored_expressions,
                cell_manager: final(self).cell_manager,
                ..*old(self)
            }),
            final(self).constraints@.subrange(0, old(self).constraints@.len() as int) == old(
                self,
            ).constraints@,
            final(self).stored_expressions@.subrange(
                0,
                old(self).stored_expressions@.len() as int,
            ) == old(self).stored_expressions@,
            final(self).constraints@.len() >= old(self).constraints@.len(),
            final(self).stored_expressions@.len() >= old(self).stored_expressions@.len(),
            old(self).cm_ready() ==> final(self).cm_ready(),
            bindings_extend(*old(self), *final(self)),
            old(self).wf() ==> final(self).wf(),
            old(self).max_global_degree != 0 ==> final(self).constraints@.len() >= old(
                self,
            ).constraints@.len() + constraints@.len(),
    {
        let n = constraints.len();
        let mut i: usize = 0;
        let mut rest = constraints;
        proof {
            assert(rest@.subrange(0, n as int) =~= rest@);
        }
        while i < n
            invariant
                i <= n,
                n == rest@.len(),
                forall|j: int| 0 <= j < n ==> old(self).can_add(#[trigger] rest@[j].expr),
                *self == (ConstraintBuilder {
                    constraints: self.constraints,
                    stored_expressions: self.stored_expressions,
                    cell_manager: self.cell_manager,
                    ..*old(self)
                }),
                self.constraints@.subrange(0, old(self).constraints@.len() as int) == old(
                    self,
                ).constraints@,
                self.stored_expressions@.subrange(
                    0,
                    old(self).stored_expressions@.len() as int,
                ) == old(self).stored_expressions@,
                self.constraints@.len() >= old(self).constraints@.len(),
                self.stored_expressions@.len() >= old(self).stored_expressions@.len(),
                old(self).cm_ready() ==> self.cm_ready(),
                bindings_extend(*old(self), *self),
                old(self).wf() ==> self.wf(),
                old(self).max_global_degree != 0 ==> self.constraints@.len() >= old(
                    self,
                ).constraints@.len() + i,
            decreases n - i,
        {
            let ghost mi = *self;
            let c = rest[i].clone();
            proof {
                assert(old(self).can_add(rest@[i as int].expr));
                assert(mi.can_add(c.expr));
            }
            self.add_constraint(c.name.as_str(), c.expr);
            proof {
                lemma_extend_trans(*old(self), mi, *self);
                lemma_prefix_trans(
                    old(self).constraints@,
                    mi.constraints@,
                    self.constraints@,
                );
                lemma_prefix_trans(
                    old(self).stored_expressions@,
                    mi.stored_expressions@,
                    self.stored_expressions@,
                );
            }
            i = i + 1;
        }
    }

    /// One fresh default cell, constrained to hold a boolean value.
    pub fn query_bool(&mut self) -> (r: CellRef)
        requires
            old(self).cm_ready(),
            (old(self).max_global_degree != 0 && old(self).region_id != 0) ==> old(
                self,
            ).max_degree >= 2 && old(self).max_degree < usize::MAX,
        ensures
            final(self).cm_ready(),
            *final(self) == (ConstraintBuilder {
                constraints: final(self).constraints,
                stored_expressions: final(self).stored_expressions,
                cell_manager: final(self).cell_manager,
                ..*old(self)
            }),
            final(self).constraints@.subrange(0, old(self).constraints@.len() as int) == old(
                self,
            ).constraints@,
            final(self).stored_expressions@.subrange(
                0,
                old(self).stored_expressions@.len() as int,
            ) == old(self).stored_expressions@,
            bindings_extend(*old(self), *final(self)),
            old(self).wf() ==> final(self).wf(),
            r == CellManager::alloc_spec(
                old(self).cell_manager.unwrap().columns@,
                old(self).cell_type_policy.default_type,
            ).1,
            old(self).max_global_degree != 0 ==> final(self).constraints@.len() > old(
                self,
            ).constraints@.len(),
            old(self).max_global_degree != 0 ==> (forall|env: EvalEnv|
                #[trigger] final(self).env_consistent(env)
                    ==> final(self).constraints@.last().expr.eval(env) == old(
                    self,
                ).gated_constraint(query_bool_poly(r)).eval(env)),
            (old(self).max_global_degree == 0 || old(self).region_id == 0 || old(
                self,
            ).effective_condition().deg() + 2 <= old(self).max_degree) ==> {
                &&& final(self).cell_manager is Some
                &&& final(self).cell_manager.unwrap().columns@ == CellManager::alloc_spec(
                    old(self).cell_manager.unwrap().columns@,
                    old(self).cell_type_policy.default_type,
                ).0
                &&& final(self).stored_expressions@ == old(self).stored_expressions@
                &&& (old(self).max_global_degree != 0 ==> final(self).constraints@.len() == old(
                    self,
                ).constraints@.len() + 1)
            },
    {
        let ghost m0 = *old(self);
        let cell = self.query_default();
        let ghost m1 = *self;
        proof {
            CellManager::lemma_same_layout_has_type(
                self.cell_manager.unwrap(),
                m0.cell_manager.unwrap(),
            );
        }
        self.require_boolean("cell is boolean", Expr::cell(cell));
        proof {
            lemma_extend_trans(m0, m1, *self);
            assert(m1.constraints@.subrange(0, m0.constraints@.len() as int) =~= m0.constraints@);
            assert(m1.stored_expressions@.subrange(0, m0.stored_expressions@.len() as int)
                =~= m0.stored_expressions@);
            lemma_prefix_trans(m0.constraints@, m1.constraints@, self.constraints@);
            lemma_prefix_trans(
                m0.stored_expressions@,
                m1.stored_expressions@,
                self.stored_expressions@,
            );
            let poly = query_bool_poly(cell);
            assert(Expr::Cell(cell).deg() == 1);
            assert(Expr::Const(crate::field::Fp { v: 1 }).deg() == 0);
            assert(Expr::Neg(Box::new(Expr::Cell(cell))).deg() == 1);
            assert(Expr::Sum(
                Box::new(Expr::Const(crate::field::Fp { v: 1 })),
                Box::new(Expr::Neg(Box::new(Expr::Cell(cell)))),
            ).deg() == 1);
            assert(poly.deg() == 2);
            assert(m1.conditions@ == m0.conditions@);
            assert(m1.gated_constraint(poly) == m0.gated_constraint(poly));
            if m0.conditions@.len() > 0 {
                assert(m0.gated_constraint(poly).deg() == m0.effective_condition().deg() + 2);
            } else {
                assert(m0.effective_condition() == Expr::Const(crate::field::Fp { v: 1 }));
                assert(m0.effective_condition().deg() == 0);
                assert(m0.gated_constraint(poly).deg() == 2);
            }
        }
        cell
    }

    /// Opens a region: snapshots the live condition stack as the region's
    /// base condition, narrows the degree budget by that condition's
    /// degree, clears the live stack, marks where the region's constraints
    /// begin, and resets the cell manager to the region's row budget.
    /// Opening region 0, and opening a region while one is already active
    /// (regions do not nest concurrently), are circuit-author errors,
    /// ruled out statically.
    pub fn push_region(&mut self, region_id: usize, height: usize)
        requires
            region_id != 0,
            old(self).region_id == 0,
            old(self).cell_manager is Some,
            old(self).effective_condition().deg() <= old(self).max_global_degree,
        ensures
            final(self).region_id == region_id,
            final(self).state_context@ == old(self).conditions@,
            final(self).conditions@.len() == 0,
            final(self).max_degree == old(self).max_global_degree - old(
                self,
            ).effective_condition().deg(),
            final(self).region_constraints_start == old(self).constraints@.len(),
            final(self).constraints@ == old(self).constraints@,
            final(self).stored_expressions@ == old(self).stored_expressions@,
            final(self).tables@ == old(self).tables@,
            final(self).lookups@ == old(self).lookups@,
            final(self).equalities@ == old(self).equalities@,
            final(self).max_global_degree == old(self).max_global_degree,
            final(self).lookup_challenge == old(self).lookup_challenge,
            final(self).cell_type_policy == old(self).cell_type_policy,
            final(self).disable_description == old(self).disable_description,
            final(self).cell_manager is Some,
            final(self).cell_manager.unwrap().same_layout(old(self).cell_manager.unwrap()),
            final(self).cell_manager.unwrap().height == height,
            forall|i: int|
                0 <= i < final(self).cell_manager.unwrap().columns@.len()
                    ==> final(self).cell_manager.unwrap().columns@[i].fill == 0,
            old(self).cm_ready() ==> final(self).cm_ready(),
            bindings_extend(*old(self), *final(self)),
            old(self).wf() ==> final(self).wf(),
    {
        self.region_id = region_id;
        self.state_context = self.conditions.clone();
        proof {
            assert(self.state_context@ =~= old(self).conditions@);
        }
        let cond = self.get_condition_expr();
        let d = cond.degree();
        self.max_degree = self.max_global_degree - d;
        self.conditions = Vec::new();
        self.region_constraints_start = self.constraints.len();
        let mut cm = self.cell_manager.take().unwrap();
        cm.reset(height);
        self.cell_manager = Some(cm);
        proof {
            if old(self).cm_ready() {
                CellManager::lemma_same_layout_has_type(
                    self.cell_manager.unwrap(),
                    old(self).cell_manager.unwrap(),
                );
            }
        }
    }

    /// Closes the current region: retroactively multiplies every
    /// constraint the region added by the region's base condition, restores
    /// the live condition stack to that base, recomputes the degree budget
    /// from it, and clears the region id.
    pub fn pop_region(&mut self)
        requires
            old(self).base_condition().deg() <= old(self).max_global_degree,
        ensures
            final(self).region_id == 0,
            final(self).conditions@ == old(self).state_context@,
            final(self).state_context@.len() == 0,
            final(self).max_degree == old(self).max_global_degree - old(
                self,
            ).base_condition().deg(),
            final(self).region_constraints_start == old(self).region_constraints_start,
            final(self).constraints@.len() == old(self).constraints@.len(),
            forall|i: int|
                0 <= i < old(self).constraints@.len() && i < old(self).region_constraints_start
                    ==> final(self).constraints@[i] == old(self).constraints@[i],
            forall|i: int|
                old(self).region_constraints_start <= i < old(self).constraints@.len() ==> {
                    &&& final(self).constraints@[i].name@ == old(self).constraints@[i].name@
                    &&& final(self).constraints@[i].expr == Expr::Product(
                        Box::new(old(self).base_condition()),
                        Box::new(old(self).constraints@[i].expr),
                    )
                },
            final(self).stored_expressions@ == old(self).stored_expressions@,
            final(self).tables@ == old(self).tables@,
            final(self).lookups@ == old(self).lookups@,
            final(self).equalities@ == old(self).equalities@,
            final(self).max_global_degree == old(self).max_global_degree,
            final(self).lookup_challenge == old(self).lookup_challenge,
            final(self).cell_type_policy == old(self).cell_type_policy,
            final(self).disable_description == old(self).disable_description,
            final(self).cell_manager == old(self).cell_manager,
            old(self).cm_ready() ==> final(self).cm_ready(),
            bindings_extend(*old(self), *final(self)),
            old(self).wf() ==> final(self).wf(),
    {
        let condition = crate::expr::and_exprs(&self.state_context);
        let n = self.constraints.len();
        let start = if self.region_constraints_start < n {
            self.region_constraints_start
        } else {
            n
        };
        let mut idx: usize = start;
        while idx < n
            invariant
                start <= idx <= n,
                n == self.constraints@.len(),
                condition == old(self).base_condition(),
                start <= n,
                start == if old(self).region_constraints_start < n {
                    old(self).region_constraints_start as int
                } else {
                    n as int
                },
                *self == (ConstraintBuilder { constraints: self.constraints, ..*old(self) }),
                forall|i: int| 0 <= i < start ==> self.constraints@[i] == old(self).constraints@[i],
                forall|i: int|
                    idx <= i < n ==> self.constraints@[i] == old(self).constraints@[i],
                forall|i: int|
                    start <= i < idx ==> {
                        &&& self.constraints@[i].name@ == old(self).constraints@[i].name@
                        &&& self.constraints@[i].expr == Expr::Product(
                            Box::new(old(self).base_condition()),
                            Box::new(old(self).constraints@[i].expr),
                        )
                    },
            decreases n - idx,
        {
            let entry = &self.constraints[idx];
            let new_entry = Constraint {
                name: entry.name.clone(),
                expr: Expr::product(condition.clone(), entry.expr.clone()),
            };
            self.constraints.set(idx, new_entry);
            idx = idx + 1;
        }
        let mut ctx = Vec::new();
        std::mem::swap(&mut ctx, &mut self.state_context);
        self.conditions = ctx;
        let cond = self.get_condition_expr();
        let d = cond.degree();
        self.max_degree = self.max_global_degree - d;
        self.region_id = 0;
        proof {
            assert(bindings_extend(*old(self), *self));
        }
    }

    /// Degree-bounded splitting: reduces an expression's degree to the
    /// region's budget by storing offending sub-expressions in cells.
    ///
    /// Outside a region, or within budget, the expression is returned
    /// unchanged.  Otherwise the tree is rebuilt: negation, scaling and sum
    /// nodes recurse into their operands; for a product, whichever operand
    /// currently has the larger degree (ties toward the first) is either
    /// split further or replaced by a stored-expression cell, until the
    /// product fits the budget.  The result always evaluates as the input
    /// does, under any assignment consistent with the recorded bindings.
    pub fn split_expression(&mut self, name: &str, expr: Expr) -> (r: Expr)
        requires
            old(self).region_id != 0 ==> old(self).cm_ready(),
            old(self).region_id != 0 ==> old(self).max_degree >= 2 || expr.deg() <= old(
                self,
            ).max_degree,
            old(self).region_id != 0 ==> old(self).max_degree < usize::MAX,
        ensures
            *final(self) == (ConstraintBuilder {
                constraints: final(self).constraints,
                stored_expressions: final(self).stored_expressions,
                cell_manager: final(self).cell_manager,
                ..*old(self)
            }),
            final(self).constraints@.len() >= old(self).constraints@.len(),
            final(self).constraints@.subrange(0, old(self).constraints@.len() as int) == old(
                self,
            ).constraints@,
            final(self).stored_expressions@.len() >= old(self).stored_expressions@.len(),
            final(self).stored_expressions@.subrange(
                0,
                old(self).stored_expressions@.len() as int,
            ) == old(self).stored_expressions@,
            (final(self).cell_manager is Some) == (old(self).cell_manager is Some),
            old(self).cell_manager is Some ==> {
                &&& final(self).cell_manager.unwrap().same_layout(old(self).cell_manager.unwrap())
                &&& final(self).cell_manager.unwrap().height == old(
                    self,
                ).cell_manager.unwrap().height
            },
            old(self).cm_ready() ==> final(self).cm_ready(),
            bindings_extend(*old(self), *final(self)),
            old(self).wf() ==> final(self).wf(),
            !(expr.deg() > old(self).max_degree && old(self).region_id != 0) ==> r == expr
                && *final(self) == *old(self),
            old(self).region_id != 0 ==> r.deg() <= old(self).max_degree,
            forall|env: EvalEnv|
                #[trigger] final(self).env_consistent(env) ==> r.eval(env) == expr.eval(env),
        decreases expr,
    {
        let d = expr.degree();
        if d > self.max_degree && self.region_id != 0 {
            match expr {
                Expr::Neg(a) => {
                    let inner = self.split_expression(name, *a);
                    let r = Expr::negate(inner);
                    proof {
                        assert forall|env: EvalEnv|
                            self.env_consistent(env) implies r.eval(env) == expr.eval(env) by {
                            assert(inner.eval(env) == a.eval(env));
                        }
                    }
                    r
                },
                Expr::Scaled(a, v) => {
                    let inner = self.split_expression(name, *a);
                    let r = Expr::scaled(inner, v);
                    proof {
                        assert forall|env: EvalEnv|
                            self.env_consistent(env) implies r.eval(env) == expr.eval(env) by {
                            assert(inner.eval(env) == a.eval(env));
                        }
                    }
                    r
                },
                Expr::Sum(a, b) => {
                    let ghost m0 = *old(self);
                    let ra = self.split_expression(name, *a);
                    let ghost m1 = *self;
                    let rb = self.split_expression(name, *b);
                    let r = Expr::sum(ra, rb);
                    proof {
                        lemma_extend_trans(m0, m1, *self);
                        lemma_prefix_trans(m0.constraints@, m1.constraints@, self.constraints@);
                        lemma_prefix_trans(
                            m0.stored_expressions@,
                            m1.stored_expressions@,
                            self.stored_expressions@,
                        );
                        if m0.cell_manager is Some {
                            CellManager::lemma_same_layout_trans(
                                self.cell_manager.unwrap(),
                                m1.cell_manager.unwrap(),
                                m0.cell_manager.unwrap(),
                            );
                        }
                        assert forall|env: EvalEnv|
                            self.env_consistent(env) implies r.eval(env) == expr.eval(env) by {
                            lemma_consistent_mono(m1, *self, env);
                            assert(ra.eval(env) == a.eval(env));
                            assert(rb.eval(env) == b.eval(env));
                        }
                    }
                    r
                },
                Expr::Product(a, b) => {
                    let ghost m0 = *old(self);
                    let ghost ea0 = *a;
                    let ghost eb0 = *b;
                    let mut ea: Expr = *a;
                    let mut eb: Expr = *b;
                    proof {
                        assert(expr.deg() == ea0.deg() + eb0.deg());
                        assert(self.max_degree >= 2);
                        assert(decreases_to!(expr => ea0));
                        assert(decreases_to!(expr => eb0));
                    }
                    while sat_add(ea.degree(), eb.degree()) > self.max_degree
                        invariant
                            decreases_to!(expr => ea0),
                            decreases_to!(expr => eb0),
                            self.region_id != 0,
                            self.max_degree >= 2,
                            self.max_degree < usize::MAX,
                            self.cm_ready(),
                            *self == (ConstraintBuilder {
                                constraints: self.constraints,
                                stored_expressions: self.stored_expressions,
                                cell_manager: self.cell_manager,
                                ..m0
                            }),
                            self.constraints@.len() >= m0.constraints@.len(),
                            self.constraints@.subrange(0, m0.constraints@.len() as int)
                                == m0.constraints@,
                            self.stored_expressions@.len() >= m0.stored_expressions@.len(),
                            self.stored_expressions@.subrange(
                                0,
                                m0.stored_expressions@.len() as int,
                            ) == m0.stored_expressions@,
                            (self.cell_manager is Some) == (m0.cell_manager is Some),
                            m0.cell_manager is Some ==> {
                                &&& self.cell_manager.unwrap().same_layout(
                                    m0.cell_manager.unwrap(),
                                )
                                &&& self.cell_manager.unwrap().height == m0.cell_manager.unwrap().height
                            },
                            bindings_extend(m0, *self),
                            m0.wf() ==> self.wf(),
                            ea == ea0 || ea.deg() <= self.max_degree,
                            eb == eb0 || eb.deg() <= self.max_degree,
                            forall|env: EvalEnv|
                                #[trigger] self.env_consistent(env) ==> ea.eval(env) == ea0.eval(
                                    env,
                                ) && eb.eval(env) == eb0.eval(env),
                        decreases ea.deg() + eb.deg(),
                    {
                        let ghost mi = *self;
                        let ghost ea_pre = ea;
                        let ghost eb_pre = eb;
                        let da = ea.degree();
                        let db = eb.degree();
                        if da >= db {
                            if da > self.max_degree {
                                proof {
                                    assert(ea == ea0);
                                }
                                ea = self.split_expression(name, ea);
                            } else {
                                let t = self.cell_type_policy.storage_for_expr(&ea);
                                proof {
                                    self.cell_type_policy.lemma_covered_storage(
                                        self.cell_manager.unwrap(),
                                        ea,
                                    );
                                    assert(da >= 2) by {
                                        assert(da + db > self.max_degree >= 2);
                                        assert(da >= db);
                                    }
                                }
                                ea = self.store_expression(name, ea, t, None);
                                proof {
                                    let c = choose|c: CellRef|
                                        ea == Expr::Cell(c) && self.region_binds(
                                            self.region_id,
                                            c,
                                            ea_pre,
                                        );
                                    assert(ea.deg() == 1);
                                }
                            }
                        } else {
                            if db > self.max_degree {
                                proof {
                                    assert(eb == eb0);
                                }
                                eb = self.split_expression(name, eb);
                            } else {
                                let t = self.cell_type_policy.storage_for_expr(&eb);
                                proof {
                                    self.cell_type_policy.lemma_covered_storage(
                                        self.cell_manager.unwrap(),
                                        eb,
                                    );
                                    assert(db >= 2) by {
                                        assert(da + db > self.max_degree >= 2);
                                        assert(db > da);
                                    }
                                }
                                eb = self.store_expression(name, eb, t, None);
                                proof {
                                    let c = choose|c: CellRef|
                                        eb == Expr::Cell(c) && self.region_binds(
                                            self.region_id,
                                            c,
                                            eb_pre,
                                        );
                                    assert(eb.deg() == 1);
                                }
                            }
                        }
                        proof {
                            lemma_extend_trans(m0, mi, *self);
                            lemma_prefix_trans(
                                m0.constraints@,
                                mi.constraints@,
                                self.constraints@,
                            );
                            lemma_prefix_trans(
                                m0.stored_expressions@,
                                mi.stored_expressions@,
                                self.stored_expressions@,
                            );
                            if m0.cell_manager is Some {
                                CellManager::lemma_same_layout_trans(
                                    self.cell_manager.unwrap(),
                                    mi.cell_manager.unwrap(),
                                    m0.cell_manager.unwrap(),
                                );
                            }
                            assert forall|env: EvalEnv|
                                self.env_consistent(env) implies ea.eval(env) == ea0.eval(env)
                                && eb.eval(env) == eb0.eval(env) by {
                                lemma_consistent_mono(mi, *self, env);
                                if da >= db {
                                    assert(ea.eval(env) == ea_pre.eval(env));
                                    assert(eb == eb_pre);
                                } else {
                                    assert(eb.eval(env) == eb_pre.eval(env));
                                    assert(ea == ea_pre);
                                }
                            }
                        }
                    }
                    let r = Expr::product(ea, eb);
                    proof {
                        assert forall|env: EvalEnv|
                            self.env_consistent(env) implies r.eval(env) == expr.eval(env) by {
                            assert(ea.eval(env) == ea0.eval(env));
                            assert(eb.eval(env) == eb0.eval(env));
                        }
                    }
                    r
                },
                _ => expr,
            }
        } else {
            expr
        }
    }

    /// Returns the current region's slice of the stored-expression cache,
    /// in insertion order, for the witness-assignment pass to replay.
    pub fn get_stored_expressions(&self, region_id: usize) -> (r: Vec<StoredExpression>)
        ensures
            r@ == self.stored_expressions@.filter(|s: StoredExpression| s.region_id == region_id),
    {
        let mut out: Vec<StoredExpression> = Vec::new();
        let n = self.stored_expressions.len();
        let mut i: usize = 0;
        proof {
            assert(self.stored_expressions@.subrange(0, 0).filter(
                |s: StoredExpression| s.region_id == region_id,
            ) =~= Seq::<StoredExpression>::empty());
        }
        while i < n
            invariant
                i <= n,
                n == self.stored_expressions@.len(),
                out@ == self.stored_expressions@.subrange(0, i as int).filter(
                    |s: StoredExpression| s.region_id == region_id,
                ),
            decreases n - i,
        {
            proof {
                reveal_with_fuel(Seq::filter, 2);
                let pre = self.stored_expressions@.subrange(0, i as int);
                let post = self.stored_expressions@.subrange(0, i + 1);
                assert(post.drop_last() =~= pre);
                assert(post.last() == self.stored_expressions@[i as int]);
            }
            let entry = &self.stored_expressions[i];
            if entry.region_id == region_id {
                out.push(entry.clone());
            }
            i = i + 1;
        }
        proof {
            assert(self.stored_expressions@.subrange(0, n as int) =~= self.stored_expressions@);
        }
        out
    }

    /// Compresses a value tuple to one cell: the tuple's RLC under the
    /// builder's challenge, gated by the effective condition, reduced by
    /// splitting, and bound to a cell through the stored-expression cache.
    /// A builder without a challenge cannot compress; that is a
    /// circuit-author error, ruled out by the precondition.
    pub fn store_tuple(&mut self, description: &str, cell_type: usize, values: Vec<Expr>) -> (r:
        Expr)
        requires
            old(self).lookup_challenge is Some,
            old(self).cell_manager is Some,
            old(self).cell_manager.unwrap().has_type(cell_type),
            old(self).region_id != 0 ==> {
                &&& old(self).cm_ready()
                &&& old(self).max_degree < usize::MAX
                &&& (old(self).max_degree >= 2 || Expr::Product(
                    Box::new(
                        crate::rlc::rlc_expr_spec(values@, old(self).lookup_challenge.unwrap()),
                    ),
                    Box::new(old(self).effective_condition()),
                ).deg() <= old(self).max_degree)
            },
        ensures
            *final(self) == (ConstraintBuilder {
                constraints: final(self).constraints,
                stored_expressions: final(self).stored_expressions,
                cell_manager: final(self).cell_manager,
                ..*old(self)
            }),
            final(self).constraints@.len() >= old(self).constraints@.len(),
            final(self).constraints@.subrange(0, old(self).constraints@.len() as int) == old(
                self,
            ).constraints@,
            final(self).stored_expressions@.len() >= old(self).stored_expressions@.len(),
            final(self).stored_expressions@.subrange(
                0,
                old(self).stored_expressions@.len() as int,
            ) == old(self).stored_expressions@,
            (final(self).cell_manager is Some) == (old(self).cell_manager is Some),
            old(self).cm_ready() ==> final(self).cm_ready(),
            bindings_extend(*old(self), *final(self)),
            old(self).wf() ==> final(self).wf(),
            exists|c: CellRef| r == Expr::Cell(c),
            forall|env: EvalEnv|
                #[trigger] final(self).env_consistent(env) ==> r.eval(env) == Expr::Product(
                    Box::new(
                        crate::rlc::rlc_expr_spec(values@, old(self).lookup_challenge.unwrap()),
                    ),
                    Box::new(old(self).effective_condition()),
                ).eval(env),
    {
        let challenge = match &self.lookup_challenge {
            Option::Some(c) => c.clone(),
            Option::None => unreached(),
        };
        let combined = crate::rlc::rlc_expr(&values, &challenge);
        let cond = self.get_condition_expr();
        let gated = Expr::product(combined, cond);
        let ghost m0 = *old(self);
        let reduced = self.split_expression("compression", gated);
        let ghost m1 = *self;
        let ghost red = reduced;
        proof {
            if m0.cell_manager is Some {
                CellManager::lemma_same_layout_has_type(
                    self.cell_manager.unwrap(),
                    m0.cell_manager.unwrap(),
                );
            }
        }
        let r = self.store_expression(description, reduced, cell_type, None);
        proof {
            lemma_extend_trans(m0, m1, *self);
            lemma_prefix_trans(m0.constraints@, m1.constraints@, self.constraints@);
            lemma_prefix_trans(
                m0.stored_expressions@,
                m1.stored_expressions@,
                self.stored_expressions@,
            );
            assert forall|env: EvalEnv|
                self.env_consistent(env) implies r.eval(env) == Expr::Product(
                Box::new(crate::rlc::rlc_expr_spec(values@, m0.lookup_challenge.unwrap())),
                Box::new(m0.effective_condition()),
            ).eval(env) by {
                lemma_consistent_mono(m1, *self, env);
                let c = choose|c: CellRef|
                    r == Expr::Cell(c) && self.region_binds(self.region_id, c, red);
                assert(env.cells[c] % (FIELD_MODULUS as int) == red.eval(env));
                assert(red.eval(env) == gated.eval(env));
            }
        }
        r
    }

    /// Records one table row under the given tag with explicit conditions;
    /// rows for the same tag accumulate in registration order.
    pub fn store_table_with_condition(
        &mut self,
        description: &str,
        table_type: usize,
        values: Vec<Expr>,
        local_condition: Expr,
        regional_condition: Expr,
    )
        ensures
            *final(self) == (ConstraintBuilder { tables: final(self).tables, ..*old(self) }),
            ({
                let j = table_key_idx(old(self).tables@, table_type);
                let entry = (TableView {
                    description: description@,
                    regional_condition,
                    local_condition,
                    values: values@,
                    region_id: old(self).region_id,
                });
                if j == -1 {
                    &&& final(self).tables@.len() == old(self).tables@.len() + 1
                    &&& final(self).tables@.subrange(0, old(self).tables@.len() as int) == old(
                        self,
                    ).tables@
                    &&& final(self).tables@.last().0 == table_type
                    &&& final(self).tables@.last().1@.len() == 1
                    &&& final(self).tables@.last().1@[0]@ == entry
                } else {
                    &&& final(self).tables@.len() == old(self).tables@.len()
                    &&& (forall|i: int|
                        0 <= i < old(self).tables@.len() && i != j ==> final(self).tables@[i]
                            == old(self).tables@[i])
                    &&& final(self).tables@[j].0 == table_type
                    &&& final(self).tables@[j].1@.len() == old(self).tables@[j].1@.len() + 1
                    &&& final(self).tables@[j].1@.subrange(
                        0,
                        old(self).tables@[j].1@.len() as int,
                    ) == old(self).tables@[j].1@
                    &&& final(self).tables@[j].1@.last()@ == entry
                }
            }),
            old(self).wf() ==> final(self).wf(),
            bindings_extend(*old(self), *final(self)),
    {
        proof {
            lemma_table_key_idx_props(self.tables@, table_type);
        }
        let data = TableData {
            description: description.to_owned(),
            regional_condition,
            local_condition,
            values,
            region_id: self.region_id,
        };
        let n = self.tables.len();
        let mut i: usize = 0;
        while i < n
            invariant
                i <= n,
                n == self.tables@.len(),
                *self == *old(self),
                data@ == (TableView {
                    description: description@,
                    regional_condition,
                    local_condition,
                    values: values@,
                    region_id: old(self).region_id,
                }),
                forall|j: int| 0 <= j < i ==> self.tables@[j].0 != table_type,
            decreases n - i,
        {
            if self.tables[i].0 == table_type {
                proof {
                    lemma_table_key_idx_props(self.tables@, table_type);
                    let k = table_key_idx(self.tables@, table_type);
                    assert(k != -1);
                    assert(!(k < i)) by {
                        if k < i {
                            assert(self.tables@[k].0 != table_type);
                        }
                    }
                    assert(!(k > i)) by {
                        if k > i {
                            assert(self.tables@[i as int].0 != table_type);
                        }
                    }
                }
                let (k, mut bucket) = self.tables.remove(i);
                bucket.push(data);
                self.tables.insert(i, (k, bucket));
                proof {
                    assert(self.tables@.len() == old(self).tables@.len());
                    assert forall|j: int|
                        0 <= j < old(self).tables@.len() && j != i implies self.tables@[j] == old(
                        self,
                    ).tables@[j] by {
                        if j < i {
                            assert(old(self).tables@.remove(i as int)[j] == old(self).tables@[j]);
                        } else {
                            assert(old(self).tables@.remove(i as int)[j - 1] == old(
                                self,
                            ).tables@[j]);
                        }
                    }
                    assert(self.tables@[i as int].1@.subrange(
                        0,
                        old(self).tables@[i as int].1@.len() as int,
                    ) =~= old(self).tables@[i as int].1@);
                    if old(self).wf() {
                        assert forall|a: int, b: int|
                            0 <= a < b < self.tables@.len() implies self.tables@[a].0
                            != self.tables@[b].0 by {
                            assert(self.tables@[a].0 == old(self).tables@[a].0);
                            assert(self.tables@[b].0 == old(self).tables@[b].0);
                        }
                    }
                }
                return ;
            }
            i = i + 1;
        }
        self.tables.push((table_type, vec![data]));
        proof {
            lemma_table_key_idx_props(old(self).tables@, table_type);
            assert(table_key_idx(old(self).tables@, table_type) == -1);
            assert(self.tables@.subrange(0, old(self).tables@.len() as int) =~= old(self).tables@);
            if old(self).wf() {
                assert forall|a: int, b: int|
                    0 <= a < b < self.tables@.len() implies self.tables@[a].0
                    != self.tables@[b].0 by {
                    if b == self.tables@.len() - 1 {
                        assert(old(self).tables@[a].0 != table_type);
                    }
                }
            }
        }
    }

    /// Records one table row under the given tag, gated by the conditions
    /// currently in force.
    pub fn store_table(&mut self, description: &str, table_type: usize, values: Vec<Expr>)
        ensures
            *final(self) == (ConstraintBuilder { tables: final(self).tables, ..*old(self) }),
            ({
                let j = table_key_idx(old(self).tables@, table_type);
                let entry = (TableView {
                    description: description@,
                    regional_condition: old(self).base_condition(),
                    local_condition: old(self).effective_condition(),
                    values: values@,
                    region_id: old(self).region_id,
                });
                if j == -1 {
                    &&& final(self).tables@.len() == old(self).tables@.len() + 1
                    &&& final(self).tables@.subrange(0, old(self).tables@.len() as int) == old(
                        self,
                    ).tables@
                    &&& final(self).tables@.last().0 == table_type
                    &&& final(self).tables@.last().1@.len() == 1
                    &&& final(self).tables@.last().1@[0]@ == entry
                } else {
                    &&& final(self).tables@.len() == old(self).tables@.len()
                    &&& (forall|i: int|
                        0 <= i < old(self).tables@.len() && i != j ==> final(self).tables@[i]
                            == old(self).tables@[i])
                    &&& final(self).tables@[j].0 == table_type
                    &&& final(self).tables@[j].1@.len() == old(self).tables@[j].1@.len() + 1
                    &&& final(self).tables@[j].1@.subrange(
                        0,
                        old(self).tables@[j].1@.len() as int,
                    ) == old(self).tables@[j].1@
                    &&& final(self).tables@[j].1@.last()@ == entry
                }
            }),
            old(self).wf() ==> final(self).wf(),
            bindings_extend(*old(self), *final(self)),
    {
        let local = self.get_condition_expr();
        let regional = crate::expr::and_exprs(&self.state_context);
        self.store_table_with_condition(description, table_type, values, local, regional)
    }

    /// Records an externally fixed table's columns as one unconditionally
    /// active row under the given tag.
    pub fn load_table(&mut self, description: &str, table_type: usize, table: Vec<Expr>)
        ensures
            *final(self) == (ConstraintBuilder { tables: final(self).tables, ..*old(self) }),
            ({
                let j = table_key_idx(old(self).tables@, table_type);
                let entry = (TableView {
                    description: description@,
                    regional_condition: Expr::Const(crate::field::Fp { v: 1 }),
                    local_condition: Expr::Const(crate::field::Fp { v: 1 }),
                    values: table@,
                    region_id: old(self).region_id,
                });
                if j == -1 {
                    &&& final(self).tables@.len() == old(self).tables@.len() + 1
                    &&& final(self).tables@.subrange(0, old(self).tables@.len() as int) == old(
                        self,
                    ).tables@
                    &&& final(self).tables@.last().0 == table_type
                    &&& final(self).tables@.last().1@.len() == 1
                    &&& final(self).tables@.last().1@[0]@ == entry
                } else {
                    &&& final(self).tables@.len() == old(self).tables@.len()
                    &&& final(self).tables@[j].1@.len() == old(self).tables@[j].1@.len() + 1
                    &&& final(self).tables@[j].1@.last()@ == entry
                }
            }),
            old(self).wf() ==> final(self).wf(),
            bindings_extend(*old(self), *final(self)),
    {
        self.store_table_with_condition(
            description,
            table_type,
            table,
            Expr::constant(1),
            Expr::constant(1),
        )
    }

    /// The single row stored under the given tag.  Reading a tag that is
    /// absent or holds more than one row is a circuit-author error, ruled
    /// out by the preconditions.
    pub fn table(&self, table_type: usize) -> (r: Vec<Expr>)
        requires
            table_key_idx(self.tables@, table_type) >= 0,
            self.tables@[table_key_idx(self.tables@, table_type)].1@.len() == 1,
        ensures
            r@ == self.tables@[table_key_idx(self.tables@, table_type)].1@[0].values@,
    {
        proof {
            lemma_table_key_idx_props(self.tables@, table_type);
        }
        let n = self.tables.len();
        let mut i: usize = 0;
        while i < n
            invariant
                i <= n,
                n == self.tables@.len(),
                table_key_idx(self.tables@, table_type) >= 0,
                self.tables@[table_key_idx(self.tables@, table_type)].1@.len() == 1,
                forall|j: int| 0 <= j < i ==> self.tables@[j].0 != table_type,
            decreases n - i,
        {
            if self.tables[i].0 == table_type {
                proof {
                    lemma_table_key_idx_props(self.tables@, table_type);
                    let k = table_key_idx(self.tables@, table_type);
                    assert(!(k < i)) by {
                        if k < i {
                            assert(self.tables@[k].0 != table_type);
                        }
                    }
                    assert(!(k > i)) by {
                        if k > i {
                            assert(self.tables@[i as int].0 != table_type);
                        }
                    }
                }
                return clone_exprs(&self.tables[i].1[0].values);
            }
            i = i + 1;
        }
        proof {
            lemma_table_key_idx_props(self.tables@, table_type);
            assert(false);
        }
        unreached()
    }

    /// Fetches every row stored under the given tag and merges them into a
    /// single selected row usable as an in-circuit expression.  Reading an
    /// unknown tag is a circuit-author error, ruled out by the
    /// precondition.
    pub fn dynamic_table_merged(&mut self, tag: usize) -> (r: Vec<Expr>)
        requires
            table_key_idx(old(self).tables@, tag) >= 0,
        ensures
            *final(self) == *old(self),
            ({
                let tvs = old(self).tables@[table_key_idx(old(self).tables@, tag)].1.deep_view();
                &&& tvs.len() == 0 ==> r@.len() == 0
                &&& tvs.len() > 0 ==> {
                    &&& r@.len() == crate::merger::max_width(tvs)
                    &&& forall|j: int|
                        0 <= j < r@.len() ==> r@[j] == Expr::Product(
                            Box::new(crate::merger::selector_spec(tvs)),
                            Box::new(crate::merger::merged_column_spec(tvs, j)),
                        )
                }
            }),
    {
        proof {
            lemma_table_key_idx_props(self.tables@, tag);
        }
        let n = self.tables.len();
        let mut i: usize = 0;
        while i < n
            invariant
                i <= n,
                n == self.tables@.len(),
                *self == *old(self),
                table_key_idx(self.tables@, tag) >= 0,
                forall|j: int| 0 <= j < i ==> self.tables@[j].0 != tag,
            decreases n - i,
        {
            if self.tables[i].0 == tag {
                proof {
                    lemma_table_key_idx_props(self.tables@, tag);
                    let k = table_key_idx(self.tables@, tag);
                    assert(!(k < i)) by {
                        if k < i {
                            assert(self.tables@[k].0 != tag);
                        }
                    }
                    assert(!(k > i)) by {
                        if k > i {
                            assert(self.tables@[i as int].0 != tag);
                        }
                    }
                }
                let data = self.tables[i].1.clone();
                proof {
                    assert forall|j: int|
                        0 <= j < data@.len() implies data@[j]@ == self.tables@[i as int].1@[j]@ by {
                        assert(cloned::<TableData>(self.tables@[i as int].1@[j], data@[j]));
                    }
                    assert(data.deep_view() =~= self.tables@[i as int].1.deep_view());
                }
                let merger = crate::merger::TableMerger { data };
                let r = merger.merge_and_select(self);
                return r;
            }
            i = i + 1;
        }
        proof {
            lemma_table_key_idx_props(self.tables@, tag);
            assert(false);
        }
        unreached()
    }

    /// Records a lookup check: the values, the target table's columns as
    /// they stand now, and the conditions currently in force.
    pub fn add_lookup(&mut self, description: &str, values: Vec<Expr>, table: Vec<Expr>)
        ensures
            *final(self) == (ConstraintBuilder { lookups: final(self).lookups, ..*old(self) }),
            final(self).lookups@.len() == old(self).lookups@.len() + 1,
            final(self).lookups@.subrange(0, old(self).lookups@.len() as int) == old(
                self,
            ).lookups@,
            final(self).lookups@.last()@ == (LookupView {
                description: description@,
                regional_condition: old(self).base_condition(),
                local_condition: old(self).effective_condition(),
                values: values@,
                table: table@,
                region_id: old(self).region_id,
            }),
            old(self).wf() ==> final(self).wf(),
            bindings_extend(*old(self), *final(self)),
    {
        let local = self.get_condition_expr();
        let regional = crate::expr::and_exprs(&self.state_context);
        let data = LookupData {
            description: description.to_owned(),
            regional_condition: regional,
            local_condition: local,
            values,
            table,
            region_id: self.region_id,
        };
        self.lookups.push(data);
        proof {
            assert(self.lookups@.subrange(0, old(self).lookups@.len() as int) =~= old(
                self,
            ).lookups@);
        }
    }

    /// The accumulated named constraints; a vacuous circuit yields the one
    /// always-satisfied placeholder constraint `0 == 0`.
    pub fn build_constraints(&self) -> (r: Vec<Constraint>)
        ensures
            self.constraints@.len() == 0 ==> {
                &&& r@.len() == 1
                &&& r@[0].name@ == "no constraints"@
                &&& r@[0].expr == Expr::Const(crate::field::Fp { v: 0 })
            },
            self.constraints@.len() > 0 ==> r@ == self.constraints@,
    {
        if self.constraints.len() == 0 {
            let mut out: Vec<Constraint> = Vec::new();
            out.push(
                Constraint { name: "no constraints".to_owned(), expr: Expr::constant(0) },
            );
            return out;
        }
        let mut out: Vec<Constraint> = Vec::new();
        let n = self.constraints.len();
        let mut i: usize = 0;
        while i < n
            invariant
                i <= n,
                n == self.constraints@.len(),
                out@ == self.constraints@.subrange(0, i as int),
            decreases n - i,
        {
            out.push(self.constraints[i].clone());
            proof {
                assert(out@ =~= self.constraints@.subrange(0, i + 1));
            }
            i = i + 1;
        }
        proof {
            assert(self.constraints@.subrange(0, n as int) =~= self.constraints@);
        }
        out
    }

    /// Emits one lookup-argument registration per pending lookup: each
    /// requested value is scaled by the lookup's conjoined condition, the
    /// requested tuple is zero-padded on the right to the table's width,
    /// and the values are zipped with the table columns.  A requested tuple
    /// wider than its table is a circuit-author error, ruled out by the
    /// precondition.
    pub fn build_lookups(&self) -> (r: Vec<LookupArgument>)
        requires
            forall|i: int|
                0 <= i < self.lookups@.len() ==> (#[trigger] self.lookups@[i]).values@.len()
                    <= self.lookups@[i].table@.len(),
        ensures
            r@.len() == self.lookups@.len(),
            forall|i: int|
                0 <= i < r@.len() ==> lookup_emitted(self.lookups@[i]@, #[trigger] r@[i]@),
    {
        let mut out: Vec<LookupArgument> = Vec::new();
        let n = self.lookups.len();
        let mut i: usize = 0;
        while i < n
            invariant
                i <= n,
                n == self.lookups@.len(),
                out@.len() == i,
                forall|k: int|
                    0 <= k < self.lookups@.len() ==> (#[trigger] self.lookups@[k]).values@.len()
                        <= self.lookups@[k].table@.len(),
                forall|k: int| 0 <= k < i ==> lookup_emitted(self.lookups@[k]@, #[trigger] out@[k]@),
            decreases n - i,
        {
            let lookup = &self.lookups[i];
            let cond = lookup.condition();
            let width = lookup.table.len();
            let mut pairs: Vec<(Expr, Expr)> = Vec::new();
            let mut j: usize = 0;
            while j < width
                invariant
                    j <= width,
                    width == lookup.table@.len(),
                    lookup.values@.len() <= lookup.table@.len(),
                    cond == lookup@.condition(),
                    pairs@.len() == j,
                    forall|m: int|
                        0 <= m < j && m < lookup.values@.len() ==> (#[trigger] pairs@[m]).0
                            == Expr::Product(
                            Box::new(lookup.values@[m]),
                            Box::new(lookup@.condition()),
                        ) && pairs@[m].1 == lookup.table@[m],
                    forall|m: int|
                        lookup.values@.len() <= m < j ==> (#[trigger] pairs@[m]).0 == Expr::Const(
                            crate::field::Fp { v: 0 },
                        ) && pairs@[m].1 == lookup.table@[m],
                decreases width - j,
            {
                let v = if j < lookup.values.len() {
                    Expr::product(lookup.values[j].clone(), cond.clone())
                } else {
                    Expr::constant(0)
                };
                pairs.push((v, lookup.table[j].clone()));
                j = j + 1;
            }
            out.push(LookupArgument { description: lookup.description.clone(), pairs });
            i = i + 1;
        }
        out
    }

    /// The accumulated equality-enablement requests, for the backend.
    pub fn build_equalities(&self) -> (r: Vec<usize>)
        ensures
            r@ == self.equalities@,
    {
        let mut out: Vec<usize> = Vec::new();
        let mut i: usize = 0;
        while i < self.equalities.len()
            invariant
                i <= self.equalities@.len(),
                out@ == self.equalities@.subrange(0, i as int),
            decreases self.equalities@.len() - i,
        {
            out.push(self.equalities[i]);
            proof {
                assert(out@ =~= self.equalities@.subrange(0, i + 1));
            }
            i = i + 1;
        }
        proof {
            assert(self.equalities@.subrange(0, self.equalities@.len() as int)
                =~= self.equalities@);
        }
        out
    }
}

} // verus!
