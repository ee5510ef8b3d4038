use circuit_tools::eval::Assignment;
use circuit_tools::expr::{same_expr, CellRef, Expr};
use circuit_tools::field::Fp;
use circuit_tools::vecs::{ExprResult, ExprVec, ExpressionVec, ToExpr, ToVec};

fn empty_assignment() -> Assignment {
    Assignment { cells: Vec::new(), challenges: Vec::new() }
}

#[test]
fn to_vec_of_vec_and_tuples() {
    let v: Vec<u64> = vec![1, 2, 3];
    assert_eq!(ToVec::<u64>::to_vec(&v), vec![1, 2, 3]);
    let pair: (u64, u64) = (4, 5);
    assert_eq!(pair.to_vec(), vec![4, 5]);
    let triple: (u64, u64, u64) = (4, 5, 6);
    assert_eq!(triple.to_vec(), vec![4, 5, 6]);
    let quad: (u64, u64, u64, u64) = (4, 5, 6, 7);
    assert_eq!(quad.to_vec(), vec![4, 5, 6, 7]);
}

#[test]
fn to_vec_of_slice() {
    let v: Vec<u64> = vec![1, 2, 3];
    let s: &[u64] = &v[..];
    assert_eq!(ToVec::<u64>::to_vec(s), vec![1, 2, 3]);
}

#[test]
fn scalars_cast_to_expressions() {
    let a = empty_assignment();
    assert_eq!(a.eval_expr(&7u64.expr()).v, 7);
    assert_eq!(a.eval_expr(&9u8.expr()).v, 9);
    assert_eq!(a.eval_expr(&3usize.expr()).v, 3);
    assert_eq!(a.eval_expr(&true.expr()).v, 1);
    assert_eq!(a.eval_expr(&false.expr()).v, 0);
    assert_eq!(a.eval_expr(&5i32.expr()).v, 5);
    // A negative value casts to its additive inverse in the field.
    assert_eq!(
        a.eval_expr(&(-1i32).expr()).v,
        circuit_tools::field::FIELD_MODULUS - 1
    );
    assert_eq!(
        a.eval_expr(&(-1i32).expr()).add(circuit_tools::field::Fp { v: 1 }).v,
        0
    );
    assert_eq!(a.eval_expr(&Fp::new(11).expr()).v, 11);
    let c = CellRef { column: 0, rotation: 0 };
    assert!(same_expr(&c.expr(), &Expr::Cell(c)));
}

#[test]
fn ranges_and_vectors_become_expression_vectors() {
    let a = empty_assignment();
    let from_range = (2usize..5usize).to_expr_vec();
    assert_eq!(from_range.len(), 3);
    assert_eq!(a.eval_expr(&from_range[0]).v, 2);
    assert_eq!(a.eval_expr(&from_range[2]).v, 4);
    let from_vec = vec![1u64, 2, 3].to_expr_vec();
    assert_eq!(from_vec.len(), 3);
    assert_eq!(a.eval_expr(&from_vec[1]).v, 2);
}

#[test]
fn expression_vec_arithmetic() {
    let a = empty_assignment();
    let xs = ExpressionVec(vec![Expr::constant(1), Expr::constant(2)]);
    let ys = ExpressionVec(vec![Expr::constant(10), Expr::constant(20)]);
    let sums = xs.add(&ys);
    assert_eq!(a.eval_expr(&sums.0[0]).v, 11);
    assert_eq!(a.eval_expr(&sums.0[1]).v, 22);
    let products = xs.mul(&ys);
    assert_eq!(a.eval_expr(&products.0[0]).v, 10);
    assert_eq!(a.eval_expr(&products.0[1]).v, 40);
}

#[test]
fn expr_result_add_and_mul() {
    let a = empty_assignment();
    let left: Vec<Expr> = vec![Expr::constant(1), Expr::constant(2)];
    let right: Vec<Expr> = vec![Expr::constant(3), Expr::constant(4)];
    let sums = ExprResult::add(&left, &right);
    assert_eq!(a.eval_expr(&sums[0]).v, 4);
    assert_eq!(a.eval_expr(&sums[1]).v, 6);
    let scaled = ExprResult::mul(&left, &Expr::constant(5));
    assert_eq!(a.eval_expr(&scaled[0]).v, 5);
    assert_eq!(a.eval_expr(&scaled[1]).v, 10);
    let single = ExprResult::add(&Expr::constant(2), &Expr::constant(3));
    assert_eq!(a.eval_expr(&single).v, 5);
}

#[test]
fn expression_helpers_evaluate() {
    let a = empty_assignment();
    let two = Expr::constant(2);
    assert_eq!(a.eval_expr(&Expr::negate(two.clone())).add(Fp::new(2)).v, 0);
    assert_eq!(a.eval_expr(&Expr::difference(Expr::constant(7), two.clone())).v, 5);
    assert_eq!(a.eval_expr(&Expr::complement(Expr::constant(0))).v, 1);
    assert_eq!(a.eval_expr(&Expr::complement(Expr::constant(1))).v, 0);
    assert_eq!(a.eval_expr(&Expr::scaled(two, Fp::new(21))).v, 42);
}

#[test]
fn conjunction_and_summation_helpers() {
    let a = empty_assignment();
    let parts = vec![Expr::constant(1), Expr::constant(1), Expr::constant(0)];
    let conj = circuit_tools::expr::and_exprs(&parts);
    assert_eq!(a.eval_expr(&conj).v, 0);
    let total = circuit_tools::expr::sum_exprs(&parts);
    assert_eq!(a.eval_expr(&total).v, 2);
    let none: Vec<Expr> = Vec::new();
    assert_eq!(a.eval_expr(&circuit_tools::expr::and_exprs(&none)).v, 1);
    assert_eq!(a.eval_expr(&circuit_tools::expr::sum_exprs(&none)).v, 0);
}

#[test]
fn degrees_follow_structure() {
    let c = Expr::cell(CellRef { column: 0, rotation: 0 });
    assert_eq!(Expr::constant(5).degree(), 0);
    assert_eq!(c.degree(), 1);
    assert_eq!(Expr::sum(c.clone(), c.clone()).degree(), 1);
    assert_eq!(Expr::product(c.clone(), c.clone()).degree(), 2);
    assert_eq!(Expr::negate(Expr::product(c.clone(), c.clone())).degree(), 2);
    assert_eq!(Expr::scaled(c.clone(), Fp::new(3)).degree(), 1);
    assert_eq!(Expr::Challenge { index: 0, phase: 1 }.degree(), 0);
}

#[test]
fn structural_identity_distinguishes_shapes() {
    let c = Expr::cell(CellRef { column: 0, rotation: 0 });
    let x = Expr::sum(c.clone(), Expr::constant(1));
    let y = Expr::sum(c.clone(), Expr::constant(1));
    let z = Expr::sum(Expr::constant(1), c.clone());
    assert!(same_expr(&x, &y));
    // Semantically equal but syntactically different: distinct identities.
    assert!(!same_expr(&x, &z));
}

#[test]
fn policy_maps_phases_to_storage() {
    let policy = circuit_tools::cells::CellTypePolicy {
        default_type: 1,
        byte_type: Some(2),
        phase_types: vec![3, 4],
        lookup_tags: vec![(2, 77)],
    };
    assert_eq!(policy.storage_for_phase(0), 3);
    assert_eq!(policy.storage_for_phase(1), 4);
    assert_eq!(policy.storage_for_phase(9), 1);
    let challenged = Expr::product(
        Expr::Challenge { index: 0, phase: 1 },
        Expr::constant(2),
    );
    assert_eq!(policy.storage_for_expr(&challenged), 4);
    assert_eq!(policy.lookup_tag(2), Some(77));
    assert_eq!(policy.lookup_tag(5), None);
}
