use circuit_tools::builder::{Constraint, ConstraintBuilder};
use circuit_tools::cells::{CellManager, CellTypePolicy};
use circuit_tools::eval::{constraints_satisfied, Assignment};
use circuit_tools::expr::{same_expr, Expr};
use circuit_tools::field::FIELD_MODULUS;

fn simple_builder(max_degree: usize) -> ConstraintBuilder {
    let types: Vec<usize> = vec![0, 0];
    let cm = CellManager::new(&types, 16);
    let policy = CellTypePolicy {
        default_type: 0,
        byte_type: Some(0),
        phase_types: vec![0],
        lookup_tags: Vec::new(),
    };
    ConstraintBuilder::new(
        max_degree,
        Some(cm),
        Some(Expr::Challenge { index: 0, phase: 0 }),
        policy,
    )
}

fn grid(cols: usize, rows: usize) -> Assignment {
    Assignment {
        cells: (0..cols).map(|_| vec![circuit_tools::field::Fp { v: 0 }; rows]).collect(),
        challenges: vec![circuit_tools::field::Fp { v: 0 }],
    }
}

#[test]
fn empty_condition_stack_is_true() {
    let cb = simple_builder(8);
    assert!(cb.get_condition().is_none());
    let one = cb.get_condition_expr();
    assert!(same_expr(&one, &Expr::constant(1)));
}

/// Pushing a condition, doing other builder work, then popping restores
/// the effective condition exactly.
#[test]
fn condition_round_trip() {
    let mut cb = simple_builder(8);
    cb.push_condition(Expr::constant(1));
    let before = cb.get_condition_expr();
    let inner = cb.query_default();
    cb.push_condition(Expr::cell(inner));
    cb.add_constraint("inner", Expr::constant(0));
    cb.enable_equality(0);
    cb.pop_condition();
    let after = cb.get_condition_expr();
    assert!(same_expr(&before, &after));
}

#[test]
fn add_constraint_gates_by_condition() {
    let mut cb = simple_builder(8);
    let q = Expr::cell(cb.query_default());
    cb.push_condition(q.clone());
    cb.add_constraint("gated", Expr::constant(5));
    cb.pop_condition();
    let built = cb.build_constraints();
    assert_eq!(built.len(), 1);
    // One condition on the stack: the constraint is condition * expr.
    let expected = Expr::product(q, Expr::constant(5));
    assert!(same_expr(&built[0].expr, &expected));
}

#[test]
fn disabled_builder_ignores_constraints() {
    let mut cb = simple_builder(0);
    cb.add_constraint("ignored", Expr::constant(7));
    cb.require_zero("ignored too", Expr::constant(9));
    let built = cb.build_constraints();
    // A vacuous circuit still produces one always-satisfied constraint.
    assert_eq!(built.len(), 1);
    assert!(same_expr(&built[0].expr, &Expr::constant(0)));
    let a = grid(2, 16);
    assert!(constraints_satisfied(&built, &a));
}

#[test]
fn require_equal_is_difference() {
    let mut cb = simple_builder(8);
    cb.require_equal("eq", Expr::constant(4), Expr::constant(4));
    let built = cb.build_constraints();
    let a = grid(2, 16);
    assert!(constraints_satisfied(&built, &a));

    let mut cb2 = simple_builder(8);
    cb2.require_equal("neq", Expr::constant(4), Expr::constant(5));
    let built2 = cb2.build_constraints();
    assert!(!constraints_satisfied(&built2, &a));
}

#[test]
fn require_boolean_accepts_zero_and_one_only() {
    let a = grid(2, 16);
    for (v, ok) in [(0u64, true), (1, true), (2, false), (FIELD_MODULUS - 1, false)] {
        let mut cb = simple_builder(8);
        cb.require_boolean("bool", Expr::constant(v));
        let built = cb.build_constraints();
        assert_eq!(constraints_satisfied(&built, &a), ok, "value {}", v);
    }
}

#[test]
fn require_in_set_membership() {
    let a = grid(2, 16);
    for (v, ok) in [(3u64, true), (5, true), (4, false)] {
        let mut cb = simple_builder(8);
        let set = vec![Expr::constant(3), Expr::constant(5), Expr::constant(9)];
        cb.require_in_set("member", Expr::constant(v), set);
        let built = cb.build_constraints();
        assert_eq!(constraints_satisfied(&built, &a), ok, "value {}", v);
    }
}

#[test]
fn add_constraints_registers_each() {
    let mut cb = simple_builder(8);
    let batch = vec![
        Constraint { name: "first".to_owned(), expr: Expr::constant(0) },
        Constraint { name: "second".to_owned(), expr: Expr::constant(0) },
    ];
    cb.add_constraints(batch);
    assert_eq!(cb.build_constraints().len(), 2);
}

#[test]
fn equalities_accumulate() {
    let mut cb = simple_builder(8);
    cb.enable_equality(3);
    cb.enable_equality(1);
    assert_eq!(cb.build_equalities(), vec![3, 1]);
}

#[test]
fn restart_clears_everything() {
    let mut cb = simple_builder(8);
    cb.push_condition(Expr::constant(1));
    cb.add_constraint("something", Expr::constant(1));
    cb.enable_equality(0);
    cb.restart();
    assert!(cb.get_condition().is_none());
    assert_eq!(cb.build_equalities().len(), 0);
    let built = cb.build_constraints();
    assert_eq!(built.len(), 1);
    assert!(same_expr(&built[0].expr, &Expr::constant(0)));
}

#[test]
fn query_bool_constrains_cell() {
    let mut cb = simple_builder(8);
    let cell = cb.query_bool();
    let built = cb.build_constraints();
    assert_eq!(built.len(), 1);
    let mut a = grid(2, 16);
    a.cells[cell.column][cell.rotation] = circuit_tools::field::Fp { v: 1 };
    assert!(constraints_satisfied(&built, &a));
    a.cells[cell.column][cell.rotation] = circuit_tools::field::Fp { v: 2 };
    assert!(!constraints_satisfied(&built, &a));
}

#[test]
fn query_cells_take_least_filled_column() {
    let mut cb = simple_builder(8);
    // Two columns of the default type: successive queries alternate.
    let c1 = cb.query_default();
    let c2 = cb.query_default();
    let c3 = cb.query_default();
    assert_eq!((c1.column, c1.rotation), (0, 0));
    assert_eq!((c2.column, c2.rotation), (1, 0));
    assert_eq!((c3.column, c3.rotation), (0, 1));
    let many = cb.query_cells_dyn(0, 3);
    assert_eq!(many.len(), 3);
    assert_eq!((many[0].column, many[0].rotation), (1, 1));
}

#[test]
fn query_bytes_uses_byte_type() {
    let mut cb = simple_builder(8);
    let cells = cb.query_bytes::<4>();
    assert_eq!(cells.len(), 4);
}
