use circuit_tools::eval::Assignment;
use circuit_tools::expr::Expr;
use circuit_tools::field::{Fp, FIELD_MODULUS};
use circuit_tools::rlc::{
    reverse_exprs, rlc_expr, RLCChainable, RLCChainableRev, RLCChainableValue, RLCable,
    RLCableValue,
};

fn empty_assignment() -> Assignment {
    Assignment { cells: Vec::new(), challenges: Vec::new() }
}

fn consts(vs: &[u64]) -> Vec<Expr> {
    vs.iter().map(|v| Expr::constant(*v)).collect()
}

/// Compressing `[1, 2, 3]` with challenge `r` yields `1 + 2r + 3r^2`.
#[test]
fn rlc_literal() {
    let values = consts(&[1, 2, 3]);
    for r in [0u64, 1, 2, 10, 12345] {
        let e = rlc_expr(&values, &Expr::constant(r));
        let a = empty_assignment();
        assert_eq!(a.eval_expr(&e).v, (1 + 2 * r + 3 * r * r) % FIELD_MODULUS);
    }
}

/// Compressing the reverse `[3, 2, 1]` with the reversed helper yields the
/// same value as compressing `[1, 2, 3]` plainly.
#[test]
fn rlc_rev_round_trip() {
    let values = consts(&[1, 2, 3]);
    let reversed = reverse_exprs(&values);
    let r = Expr::constant(10);
    let plain = values.rlc(&r);
    let rev = reversed.rlc_rev(&r);
    let a = empty_assignment();
    assert_eq!(a.eval_expr(&plain).v, a.eval_expr(&rev).v);
    assert_eq!(a.eval_expr(&plain).v, 321);
}

#[test]
fn rlc_empty_is_zero() {
    let values: Vec<Expr> = Vec::new();
    let e = rlc_expr(&values, &Expr::constant(7));
    let a = empty_assignment();
    assert_eq!(a.eval_expr(&e).v, 0);
}

#[test]
fn rlc_value_bytes_matches_formula() {
    let bytes: Vec<u8> = vec![1, 2, 3];
    let r = Fp::new(10);
    assert_eq!(bytes.rlc_value(r).v, 321);
    // Reversed helper on the reversed bytes gives the same value.
    let reversed: Vec<u8> = vec![3, 2, 1];
    assert_eq!(reversed.rlc_value_rev(r).v, 321);
}

#[test]
fn rlc_value_on_byte_slices() {
    let bytes: Vec<u8> = vec![1, 2, 3];
    let s: &[u8] = &bytes[..];
    assert_eq!(s.rlc_value(Fp::new(10)).v, 321);
    let rev: &[u8] = &[3, 2, 1];
    assert_eq!(rev.rlc_value_rev(Fp::new(10)).v, 321);
}

#[test]
fn rlc_chain_value_accumulates() {
    let start = (Fp::zero(), Fp::one());
    let bytes: Vec<u8> = vec![1, 2, 3];
    let (acc, mult) = start.rlc_chain_value(&bytes, Fp::new(10));
    assert_eq!(acc.v, 321);
    assert_eq!(mult.v, 1000);
    // Chaining more bytes continues where the multiplier left off.
    let (acc2, mult2) = (acc, mult).rlc_chain_value(&vec![4u8], Fp::new(10));
    assert_eq!(acc2.v, 4321);
    assert_eq!(mult2.v, 10000);
}

#[test]
fn rlc_chain_pairs() {
    let a = empty_assignment();
    let pair = (Expr::constant(5), Expr::constant(100));
    let chained = pair.rlc_chain(Expr::constant(7));
    // 5 + 100 * 7
    assert_eq!(a.eval_expr(&chained).v, 705);
    let rev = Expr::constant(7).rlc_chain_rev((Expr::constant(5), Expr::constant(100)));
    // 7 * 100 + 5
    assert_eq!(a.eval_expr(&rev).v, 705);
}
