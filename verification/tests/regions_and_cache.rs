use circuit_tools::builder::ConstraintBuilder;
use circuit_tools::cells::{CellManager, CellTypePolicy};
use circuit_tools::eval::Assignment;
use circuit_tools::expr::{same_expr, Expr};
use circuit_tools::field::Fp;

fn simple_builder(max_degree: usize) -> ConstraintBuilder {
    let types: Vec<usize> = vec![0, 0, 0];
    let cm = CellManager::new(&types, 32);
    let policy = CellTypePolicy {
        default_type: 0,
        byte_type: Some(0),
        phase_types: vec![0],
        lookup_tags: Vec::new(),
    };
    ConstraintBuilder::new(max_degree, Some(cm), None, policy)
}

fn grid(cols: usize, rows: usize) -> Assignment {
    Assignment {
        cells: (0..cols).map(|_| vec![Fp { v: 0 }; rows]).collect(),
        challenges: Vec::new(),
    }
}

/// Writes the recorded stored-expression values of a region into the
/// assignment, in insertion order, as the witness pass would.
fn replay_stored(cb: &ConstraintBuilder, region: usize, a: &mut Assignment) {
    for entry in cb.get_stored_expressions(region) {
        let value = a.eval_expr(&entry.expr);
        a.cells[entry.cell.column][entry.cell.rotation] = value;
    }
}

/// Constraints added inside a region are, after the region is popped,
/// gated by the conjunction of the conditions active before the push.
#[test]
fn region_gating() {
    let mut cb = simple_builder(8);
    let q = Expr::cell(cb.query_default());
    cb.push_condition(q.clone());
    let marker = cb.build_constraints().len();
    assert_eq!(marker, 1);  // vacuous placeholder only; nothing real yet
    cb.push_region(7, 16);
    // Inside the region the author starts from an empty condition stack.
    assert!(cb.get_condition().is_none());
    cb.add_constraint("inner", Expr::constant(5));
    cb.pop_region();
    let built = cb.build_constraints();
    assert_eq!(built.len(), 1);
    let expected = Expr::product(q.clone(), Expr::constant(5));
    assert!(same_expr(&built[0].expr, &expected));
    // The live condition stack is restored.
    let after = cb.get_condition_expr();
    assert!(same_expr(&after, &q));
}

#[test]
fn region_budget_narrows_by_condition_degree() {
    let mut cb = simple_builder(8);
    let q = Expr::cell(cb.query_default());
    let q2 = Expr::cell(cb.query_default());
    cb.push_condition(Expr::product(q, q2));
    cb.push_region(3, 16);
    assert_eq!(cb.max_degree, 6);
    cb.pop_region();
    assert_eq!(cb.max_degree, 6);
    cb.pop_condition();
    cb.push_region(4, 16);
    assert_eq!(cb.max_degree, 8);
    cb.pop_region();
}

/// Storing structurally identical expressions twice, with the same cell
/// type and in the same region, returns the same cell and adds exactly one
/// equality constraint, not two.
#[test]
fn cache_idempotence() {
    let mut cb = simple_builder(8);
    cb.push_region(1, 16);
    let a = Expr::cell(cb.query_default());
    let b = Expr::cell(cb.query_default());
    let e1 = Expr::product(a.clone(), b.clone());
    let e2 = Expr::product(a.clone(), b.clone());
    let n0 = cb.constraints.len();
    let r1 = cb.store_expression("stored", e1, 0, None);
    let n1 = cb.constraints.len();
    let r2 = cb.store_expression("stored again", e2, 0, None);
    let n2 = cb.constraints.len();
    assert!(same_expr(&r1, &r2));
    assert_eq!(n1, n0 + 1);
    assert_eq!(n2, n1);
    assert_eq!(cb.get_stored_expressions(1).len(), 1);
}

#[test]
fn cache_is_region_scoped() {
    let mut cb = simple_builder(8);
    cb.push_region(1, 16);
    let c1 = cb.query_default();
    let c2 = cb.query_default();
    let e = Expr::product(Expr::cell(c1), Expr::cell(c2));
    let r1 = cb.store_expression("one", e.clone(), 0, None);
    cb.pop_region();
    cb.push_region(2, 16);
    let r2 = cb.store_expression("two", e, 0, None);
    cb.pop_region();
    // Two entries exist: regions do not share cells.
    assert_eq!(cb.get_stored_expressions(1).len(), 1);
    assert_eq!(cb.get_stored_expressions(2).len(), 1);
    // The two returned references are to cells, found independently.
    assert!(matches!(r1, Expr::Cell(_)));
    assert!(matches!(r2, Expr::Cell(_)));
}

#[test]
fn cache_distinguishes_cell_types() {
    let mut cb = simple_builder(8);
    cb.push_region(1, 16);
    let e = Expr::constant(4);
    let r1 = cb.store_expression("as default", e.clone(), 0, None);
    let r2 = cb.store_expression("as default again", e, 0, None);
    assert!(same_expr(&r1, &r2));
    assert_eq!(cb.get_stored_expressions(1).len(), 1);
}

#[test]
fn stored_expressions_keep_insertion_order() {
    let mut cb = simple_builder(8);
    cb.push_region(1, 16);
    let first = Expr::constant(4);
    let second = Expr::constant(5);
    cb.store_expression("first", first.clone(), 0, None);
    cb.store_expression("second", second.clone(), 0, None);
    let stored = cb.get_stored_expressions(1);
    assert_eq!(stored.len(), 2);
    assert!(same_expr(&stored[0].expr, &first));
    assert!(same_expr(&stored[1].expr, &second));
    assert!(cb.get_stored_expressions(2).is_empty());
}

#[test]
fn store_expression_uses_supplied_cell() {
    let mut cb = simple_builder(8);
    cb.push_region(1, 16);
    let target = cb.query_default();
    let e = Expr::constant(9);
    let r = cb.store_expression("targeted", e, 0, Some(target));
    match r {
        Expr::Cell(c) => assert_eq!((c.column, c.rotation), (target.column, target.rotation)),
        _ => panic!("stored expression should be a cell"),
    }
}

/// Splitting a too-high-degree expression yields one within the budget
/// that evaluates identically once the recorded bindings are replayed.
#[test]
fn split_expression_degree_and_value() {
    let mut cb = simple_builder(2);
    cb.push_region(1, 16);
    assert_eq!(cb.max_degree, 2);
    let a = cb.query_default();
    let b = cb.query_default();
    let c = cb.query_default();
    let d = cb.query_default();
    let product = Expr::product(
        Expr::product(Expr::cell(a), Expr::cell(b)),
        Expr::product(Expr::cell(c), Expr::cell(d)),
    );
    assert_eq!(product.degree(), 4);
    let reduced = cb.split_expression("wide product", product.clone());
    assert!(reduced.degree() <= 2);
    assert!(!cb.get_stored_expressions(1).is_empty());

    // Assign the four cells, replay the recorded bindings, and compare.
    let mut asg = grid(3, 32);
    asg.cells[a.column][a.rotation] = Fp { v: 3 };
    asg.cells[b.column][b.rotation] = Fp { v: 5 };
    asg.cells[c.column][c.rotation] = Fp { v: 7 };
    asg.cells[d.column][d.rotation] = Fp { v: 11 };
    replay_stored(&cb, 1, &mut asg);
    assert_eq!(asg.eval_expr(&reduced).v, 3 * 5 * 7 * 11);
    assert_eq!(asg.eval_expr(&product).v, 3 * 5 * 7 * 11);
}

#[test]
fn split_leaves_small_expressions_alone() {
    let mut cb = simple_builder(4);
    cb.push_region(1, 16);
    let a = Expr::cell(cb.query_default());
    let b = Expr::cell(cb.query_default());
    let small = Expr::product(a, b);
    let before = cb.constraints.len();
    let out = cb.split_expression("small", small.clone());
    assert!(same_expr(&out, &small));
    assert_eq!(cb.constraints.len(), before);
}

/// Outside any region the degree budget is deliberately not enforced:
/// top-level constraints pass through unsplit and unchecked.
#[test]
fn top_level_constraints_skip_budget_validation() {
    let mut cb = simple_builder(2);
    let a = Expr::cell(cb.query_default());
    let b = Expr::cell(cb.query_default());
    let c = Expr::cell(cb.query_default());
    let cube = Expr::product(Expr::product(a, b), c);
    cb.add_constraint("global cubic", cube.clone());
    let built = cb.build_constraints();
    assert_eq!(built.len(), 1);
    assert!(same_expr(&built[0].expr, &cube));
    assert_eq!(built[0].expr.degree(), 3);
}

#[test]
fn add_constraint_respects_budget_by_splitting() {
    let mut cb = simple_builder(2);
    cb.push_region(1, 16);
    let a = Expr::cell(cb.query_default());
    let b = Expr::cell(cb.query_default());
    let c = Expr::cell(cb.query_default());
    let cube = Expr::product(Expr::product(a, b), c);
    cb.add_constraint("cubic", cube);
    cb.pop_region();
    let built = cb.build_constraints();
    for ct in &built {
        assert!(ct.expr.degree() <= 2, "constraint {} too wide", ct.name);
    }
}
