//! The cell manager: allocation of typed storage slots within a region.
//!
//! Columns are grouped by a cell-type tag; a query takes fresh slots from
//! the least-filled column of the requested type, first column winning ties.
//! Entering a region resets every fill level, so storage is region-scoped.
//! Allocation is deterministic, which the stored-expression cache relies on;
//! the functional models `alloc_spec` and `query_spec` pin each step down.

use vstd::prelude::*;
use crate::expr::{CellRef, Expr};

verus! {

/// One storage column: its cell-type tag, its global column index, and how
/// many rows of it the current region has used.
#[derive(Clone, Copy, PartialEq, Eq, Structural, Debug)]
pub struct CellColumn {
    pub cell_type: usize,
    pub index: usize,
    pub fill: usize,
}

/// Allocates cells column by column, least-filled first.
#[derive(Debug)]
pub struct CellManager {
    pub columns: Vec<CellColumn>,
    pub height: usize,
}

/// The position of the column a query of type `t` takes its next cell from:
/// the first column of that type with the lowest fill, or -1 when no column
/// has the type.
pub open spec fn pick_spec(cols: Seq<CellColumn>, t: usize) -> int
    decreases cols.len(),
{
    if cols.len() == 0 {
        -1
    } else {
        let p = pick_spec(cols.drop_last(), t);
        if cols.last().cell_type != t {
            p
        } else if p >= 0 && cols[p].fill <= cols.last().fill {
            p
        } else {
            cols.len() - 1
        }
    }
}

pub proof fn lemma_pick_spec_in_range(cols: Seq<CellColumn>, t: usize)
    ensures
        (exists|i: int| 0 <= i < cols.len() && cols[i].cell_type == t) ==> {
            &&& 0 <= pick_spec(cols, t) < cols.len()
            &&& cols[pick_spec(cols, t)].cell_type == t
        },
        !(exists|i: int| 0 <= i < cols.len() && cols[i].cell_type == t) ==> pick_spec(cols, t)
            == -1,
    decreases cols.len(),
{
    if cols.len() > 0 {
        lemma_pick_spec_in_range(cols.drop_last(), t);
        if exists|i: int| 0 <= i < cols.len() && cols[i].cell_type == t {
            let w = choose|i: int| 0 <= i < cols.len() && cols[i].cell_type == t;
            if cols.last().cell_type != t {
                assert(cols[w].cell_type == t);
                assert(w < cols.len() - 1);
                assert(cols.drop_last()[w] == cols[w]);
            }
        } else {
            assert(forall|i: int|
                0 <= i < cols.drop_last().len() ==> cols.drop_last()[i] == cols[i]);
        }
    }
}

impl CellManager {
    /// Whether some column carries the given cell type.
    pub open spec fn has_type(self, t: usize) -> bool {
        exists|i: int| 0 <= i < self.columns@.len() && self.columns@[i].cell_type == t
    }

    /// Whether `self` and `other` lay their columns out identically,
    /// differing at most in fill levels.
    pub open spec fn same_layout(self, other: CellManager) -> bool {
        &&& self.columns@.len() == other.columns@.len()
        &&& forall|i: int|
            0 <= i < self.columns@.len() ==> {
                &&& self.columns@[i].cell_type == other.columns@[i].cell_type
                &&& self.columns@[i].index == other.columns@[i].index
            }
    }

    /// `same_layout` is transitive.
    pub proof fn lemma_same_layout_trans(a: CellManager, b: CellManager, c: CellManager)
        requires
            a.same_layout(b),
            b.same_layout(c),
        ensures
            a.same_layout(c),
    {
    }

    /// Managers laid out alike offer the same cell types.
    pub proof fn lemma_same_layout_has_type(a: CellManager, b: CellManager)
        requires
            a.same_layout(b),
        ensures
            forall|t: usize| a.has_type(t) <==> b.has_type(t),
    {
        assert forall|t: usize| a.has_type(t) <==> b.has_type(t) by {
            if a.has_type(t) {
                let i = choose|i: int|
                    0 <= i < a.columns@.len() && a.columns@[i].cell_type == t;
                assert(b.columns@[i].cell_type == t);
            }
            if b.has_type(t) {
                let i = choose|i: int|
                    0 <= i < b.columns@.len() && b.columns@[i].cell_type == t;
                assert(a.columns@[i].cell_type == t);
            }
        }
    }

    /// The columns and cell that one allocation of type `t` produces: the
    /// picked column's next free row, with the fill level advanced (it
    /// saturates at the platform limit).
    pub open spec fn alloc_spec(cols: Seq<CellColumn>, t: usize) -> (Seq<CellColumn>, CellRef) {
        let p = pick_spec(cols, t);
        let col = cols[p];
        let cell = CellRef { column: col.index, rotation: col.fill };
        let new_fill: usize = if col.fill < usize::MAX {
            (col.fill + 1) as usize
        } else {
            col.fill
        };
        (cols.update(p, CellColumn { fill: new_fill, ..col }), cell)
    }

    /// The columns and cells that `count` successive allocations produce.
    pub open spec fn query_spec(cols: Seq<CellColumn>, t: usize, count: nat) -> (
        Seq<CellColumn>,
        Seq<CellRef>,
    )
        decreases count,
    {
        if count == 0 {
            (cols, Seq::empty())
        } else {
            let (m1, cell) = CellManager::alloc_spec(cols, t);
            let (m2, rest) = CellManager::query_spec(m1, t, (count - 1) as nat);
            (m2, seq![cell] + rest)
        }
    }

    /// A manager with one column per entry of `types`, numbered in order,
    /// with nothing allocated yet.
    pub fn new(types: &Vec<usize>, height: usize) -> (r: CellManager)
        ensures
            r.columns@.len() == types@.len(),
            forall|i: int|
                0 <= i < types@.len() ==> r.columns@[i] == (CellColumn {
                    cell_type: types@[i],
                    index: i as usize,
                    fill: 0,
                }),
            r.height == height,
    {
        let mut columns: Vec<CellColumn> = Vec::new();
        let mut i: usize = 0;
        while i < types.len()
            invariant
                i <= types@.len(),
                columns@.len() == i,
                forall|j: int|
                    0 <= j < i ==> columns@[j] == (CellColumn {
                        cell_type: types@[j],
                        index: j as usize,
                        fill: 0,
                    }),
            decreases types@.len() - i,
        {
            columns.push(CellColumn { cell_type: types[i], index: i, fill: 0 });
            i = i + 1;
        }
        CellManager { columns, height }
    }

    /// Frees every allocation and adopts the new region's row budget.
    pub fn reset(&mut self, height: usize)
        ensures
            final(self).same_layout(*old(self)),
            forall|i: int|
                0 <= i < final(self).columns@.len() ==> final(self).columns@[i].fill == 0,
            final(self).height == height,
            final(self).columns@.len() == old(self).columns@.len(),
    {
        let h = self.height;
        let n = self.columns.len();
        let mut i: usize = 0;
        while i < n
            invariant
                i <= n,
                n == self.columns@.len(),
                self.height == old(self).height,
                self.same_layout(*old(self)),
                forall|j: int| 0 <= j < i ==> self.columns@[j].fill == 0,
            decreases n - i,
        {
            let col = self.columns[i];
            self.columns.set(i, CellColumn { fill: 0, ..col });
            i = i + 1;
        }
        self.height = height;
    }

    /// Frees every allocation, keeping the configured height.
    pub fn restart(&mut self)
        ensures
            final(self).same_layout(*old(self)),
            forall|i: int|
                0 <= i < final(self).columns@.len() ==> final(self).columns@[i].fill == 0,
            final(self).height == old(self).height,
            final(self).columns@.len() == old(self).columns@.len(),
    {
        let h = self.height;
        self.reset(h);
    }

    /// Takes one fresh cell of the given type.
    pub fn take_one(&mut self, t: usize) -> (r: CellRef)
        requires
            old(self).has_type(t),
        ensures
            (final(self).columns@, r) == CellManager::alloc_spec(old(self).columns@, t),
            final(self).same_layout(*old(self)),
            final(self).height == old(self).height,
            final(self).has_type(t),
    {
        proof {
            lemma_pick_spec_in_range(self.columns@, t);
        }
        let n = self.columns.len();
        let mut best: usize = 0;
        let mut found: bool = false;
        let mut i: usize = 0;
        while i < n
            invariant
                i <= n,
                n == self.columns@.len(),
                found <==> pick_spec(self.columns@.subrange(0, i as int), t) >= 0,
                found ==> best == pick_spec(self.columns@.subrange(0, i as int), t),
                found ==> best < i,
            decreases n - i,
        {
            proof {
                let pre = self.columns@.subrange(0, i as int);
                let post = self.columns@.subrange(0, i + 1);
                assert(post.drop_last() =~= pre);
                assert(post.last() == self.columns@[i as int]);
                lemma_pick_spec_in_range(pre, t);
            }
            let col = self.columns[i];
            if col.cell_type == t {
                if !found {
                    best = i;
                    found = true;
                } else {
                    let cur = self.columns[best];
                    if col.fill < cur.fill {
                        best = i;
                    }
                }
            }
            i = i + 1;
        }
        proof {
            assert(self.columns@.subrange(0, n as int) =~= self.columns@);
            assert(found);
        }
        let col = self.columns[best];
        let cell = CellRef { column: col.index, rotation: col.fill };
        let new_fill: usize = if col.fill < usize::MAX {
            col.fill + 1
        } else {
            col.fill
        };
        self.columns.set(best, CellColumn { fill: new_fill, ..col });
        proof {
            let (m, c) = CellManager::alloc_spec(old(self).columns@, t);
            assert(m =~= self.columns@);
            let w = choose|j: int|
                0 <= j < old(self).columns@.len() && old(self).columns@[j].cell_type == t;
            assert(self.columns@[w].cell_type == t);
        }
        cell
    }

    /// Takes `count` fresh cells of the given type.
    pub fn query_cells(&mut self, t: usize, count: usize) -> (r: Vec<CellRef>)
        requires
            old(self).has_type(t),
        ensures
            (final(self).columns@, r@) == CellManager::query_spec(old(self).columns@, t, count as nat),
            r@.len() == count,
            final(self).same_layout(*old(self)),
            final(self).height == old(self).height,
            final(self).has_type(t),
    {
        let mut out: Vec<CellRef> = Vec::new();
        let mut i: usize = 0;
        while i < count
            invariant
                i <= count,
                old(self).has_type(t),
                self.has_type(t),
                self.same_layout(*old(self)),
                self.height == old(self).height,
                out@.len() == i,
                CellManager::query_spec(old(self).columns@, t, count as nat) == {
                    let (m2, rest) = CellManager::query_spec(
                        self.columns@,
                        t,
                        (count - i) as nat,
                    );
                    (m2, out@ + rest)
                },
            decreases count - i,
        {
            let ghost pre = self.columns@;
            let cell = self.take_one(t);
            out.push(cell);
            proof {
                let (m1, c1) = CellManager::alloc_spec(pre, t);
                let (m2, rest) = CellManager::query_spec(m1, t, (count - i - 1) as nat);
                assert(CellManager::query_spec(pre, t, (count - i) as nat) == (
                    m2,
                    seq![c1] + rest,
                ));
                assert(out@ + rest =~= out@.drop_last() + (seq![c1] + rest));
            }
            i = i + 1;
        }
        proof {
            let (m2, rest) = CellManager::query_spec(self.columns@, t, 0);
            assert(out@ + rest =~= out@);
        }
        out
    }
}

/// The position of the first pair mapping classification `t` in a
/// lookup-tag list, or -1 when none does.
pub open spec fn tag_idx_spec(pairs: Seq<(usize, usize)>, t: usize) -> int
    decreases pairs.len(),
{
    if pairs.len() == 0 {
        -1
    } else if pairs[0].0 == t {
        0
    } else {
        let r = tag_idx_spec(pairs.drop_first(), t);
        if r == -1 {
            -1
        } else {
            r + 1
        }
    }
}

pub proof fn lemma_tag_idx_props(pairs: Seq<(usize, usize)>, t: usize)
    ensures
        tag_idx_spec(pairs, t) == -1 || 0 <= tag_idx_spec(pairs, t) < pairs.len(),
        tag_idx_spec(pairs, t) == -1 <==> (forall|i: int| 0 <= i < pairs.len() ==> pairs[i].0 != t),
        tag_idx_spec(pairs, t) >= 0 ==> {
            &&& tag_idx_spec(pairs, t) < pairs.len()
            &&& pairs[tag_idx_spec(pairs, t)].0 == t
            &&& forall|j: int| 0 <= j < tag_idx_spec(pairs, t) ==> pairs[j].0 != t
        },
    decreases pairs.len(),
{
    if pairs.len() > 0 && pairs[0].0 != t {
        let tail = pairs.drop_first();
        lemma_tag_idx_props(tail, t);
        assert(forall|i: int| 0 <= i < tail.len() ==> tail[i] == pairs[i + 1]);
        if tag_idx_spec(pairs, t) == -1 {
            assert forall|i: int| 0 <= i < pairs.len() implies pairs[i].0 != t by {
                if i > 0 {
                    assert(pairs[i] == tail[i - 1]);
                }
            }
        }
        if forall|i: int| 0 <= i < pairs.len() ==> pairs[i].0 != t {
            if tag_idx_spec(tail, t) >= 0 {
                let j = tag_idx_spec(tail, t);
                assert(tail[j] == pairs[j + 1]);
            }
        }
        if tag_idx_spec(pairs, t) >= 0 {
            let r = tag_idx_spec(tail, t);
            assert(pairs[r + 1] == tail[r]);
            assert forall|j: int| 0 <= j < r + 1 implies pairs[j].0 != t by {
                if j > 0 {
                    assert(pairs[j] == tail[j - 1]);
                }
            }
        }
    }
}

/// The cell-type policy a concrete circuit supplies: its default storage
/// classification, its optional byte classification, the classification
/// used for values computed in each witness phase, and the lookup-table tag
/// a classification feeds, where it feeds one.
#[derive(Debug)]
pub struct CellTypePolicy {
    pub default_type: usize,
    pub byte_type: Option<usize>,
    pub phase_types: Vec<usize>,
    pub lookup_tags: Vec<(usize, usize)>,
}

impl CellTypePolicy {
    /// The classification storing values of the given witness phase.
    pub open spec fn storage_for_phase_spec(self, p: nat) -> usize {
        if p < self.phase_types@.len() {
            self.phase_types@[p as int]
        } else {
            self.default_type
        }
    }

    /// The classification the degree-reduction pass stores `e` in.
    pub open spec fn storage_for_expr_spec(self, e: Expr) -> usize {
        self.storage_for_phase_spec(e.phase())
    }

    /// Whether every classification this policy can pick exists in `cm`.
    pub open spec fn covered_by(self, cm: CellManager) -> bool {
        &&& cm.has_type(self.default_type)
        &&& forall|i: int| 0 <= i < self.phase_types@.len() ==> cm.has_type(self.phase_types@[i])
    }

    /// The classification storing values of the given witness phase.
    pub fn storage_for_phase(&self, p: usize) -> (t: usize)
        ensures
            t == self.storage_for_phase_spec(p as nat),
    {
        if p < self.phase_types.len() {
            self.phase_types[p]
        } else {
            self.default_type
        }
    }

    /// The classification the degree-reduction pass stores `e` in.
    pub fn storage_for_expr(&self, e: &Expr) -> (t: usize)
        ensures
            t == self.storage_for_expr_spec(*e),
    {
        let p = e.compute_phase();
        self.storage_for_phase(p)
    }

    /// The position of the first lookup-tag pair for classification `t`,
    /// or -1 when the policy maps `t` to no table.
    pub open spec fn tag_idx(self, t: usize) -> int {
        tag_idx_spec(self.lookup_tags@, t)
    }

    /// The lookup-table tag fed by the given classification: the tag of the
    /// first matching pair, or `None` when no pair matches.
    pub fn lookup_tag(&self, t: usize) -> (r: Option<usize>)
        ensures
            self.tag_idx(t) == -1 <==> r is None,
            self.tag_idx(t) >= 0 ==> r == Some(self.lookup_tags@[self.tag_idx(t)].1),
    {
        proof {
            lemma_tag_idx_props(self.lookup_tags@, t);
        }
        let n = self.lookup_tags.len();
        let mut i: usize = 0;
        while i < n
            invariant
                i <= n,
                n == self.lookup_tags@.len(),
                forall|j: int| 0 <= j < i ==> self.lookup_tags@[j].0 != t,
            decreases n - i,
        {
            let (ty, tag) = self.lookup_tags[i];
            if ty == t {
                proof {
                    lemma_tag_idx_props(self.lookup_tags@, t);
                    let k = tag_idx_spec(self.lookup_tags@, t);
                    assert(k != -1);
                    assert(!(k < i)) by {
                        if k < i {
                            assert(self.lookup_tags@[k].0 != t);
                        }
                    }
                    assert(!(k > i)) by {
                        if k > i {
                            assert(self.lookup_tags@[i as int].0 != t);
                        }
                    }
                }
                return Some(tag);
            }
            i = i + 1;
        }
        proof {
            lemma_tag_idx_props(self.lookup_tags@, t);
        }
        None
    }

    pub proof fn lemma_covered_storage(self, cm: CellManager, e: Expr)
        requires
            self.covered_by(cm),
        ensures
            cm.has_type(self.storage_for_expr_spec(e)),
    {
    }
}

} // verus!
