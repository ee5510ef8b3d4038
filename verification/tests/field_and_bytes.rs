use circuit_tools::bytes::{from_bytes_expr, from_bytes_value};
use circuit_tools::eval::Assignment;
use circuit_tools::expr::Expr;
use circuit_tools::field::{pow_of_two, Fp, FIELD_MODULUS};

fn empty_assignment() -> Assignment {
    Assignment { cells: Vec::new(), challenges: Vec::new() }
}

#[test]
fn field_add_and_mul() {
    let a = Fp::new(7);
    let b = Fp::new(5);
    assert_eq!(a.add(b).v, 12);
    assert_eq!(a.mul(b).v, 35);
    assert_eq!(a.sub(b).v, 2);
    assert_eq!(b.sub(a).v, FIELD_MODULUS - 2);
    assert_eq!(a.add(a.neg()).v, 0);
}

#[test]
fn field_wraps_at_modulus() {
    let big = Fp::new(FIELD_MODULUS - 1);
    assert_eq!(big.add(Fp::one()).v, 0);
    assert_eq!(big.add(Fp::new(3)).v, 2);
}

#[test]
fn pow_of_two_values() {
    assert_eq!(pow_of_two(0).v, 1);
    assert_eq!(pow_of_two(1).v, 2);
    assert_eq!(pow_of_two(10).v, 1024);
    // 2^61 wraps: 2^61 mod (2^61 - 1) = 1.
    assert_eq!(pow_of_two(61).v, 1);
}

#[test]
fn field_inverse() {
    assert!(Fp::new(0).inverse().is_none());
    assert!(Fp::new(FIELD_MODULUS).inverse().is_none());
    assert_eq!(Fp::new(1).inverse().unwrap().v, 1);
    // The inverse of 2 is (modulus + 1) / 2.
    assert_eq!(Fp::new(2).inverse().unwrap().v, (FIELD_MODULUS + 1) / 2);
    for x in [2u64, 3, 7, 1234567, FIELD_MODULUS - 1] {
        let a = Fp::new(x);
        let inv = a.inverse().unwrap();
        assert_eq!(a.mul(inv).v, 1);
    }
}

#[test]
fn from_bytes_value_little_endian() {
    let bytes: Vec<u8> = vec![0x34, 0x12];
    assert_eq!(from_bytes_value(&bytes).v, 0x1234);
    let empty: Vec<u8> = Vec::new();
    assert_eq!(from_bytes_value(&empty).v, 0);
    let max7: Vec<u8> = vec![0xff; 7];
    assert_eq!(from_bytes_value(&max7).v, (1u64 << 56) - 1);
}

#[test]
fn from_bytes_expr_evaluates_little_endian() {
    let bytes: Vec<Expr> = vec![Expr::constant(0x34), Expr::constant(0x12)];
    let e = from_bytes_expr(&bytes);
    let a = empty_assignment();
    assert_eq!(a.eval_expr(&e).v, 0x1234);
}
