//! Decoding a field element from its little-endian byte representation.

use vstd::prelude::*;
use vstd::arithmetic::power::pow;
use crate::expr::Expr;
use crate::field::{Fp, FIELD_MODULUS};

verus! {

/// The most bytes an integer can take without wrapping in the field.
pub const MAX_N_BYTES_INTEGER: usize = 7;

/// The integer a little-endian byte string denotes.
pub open spec fn le_bytes_int(s: Seq<u8>) -> int
    decreases s.len(),
{
    if s.len() == 0 {
        0
    } else {
        s[0] + 256 * le_bytes_int(s.drop_first())
    }
}

/// A little-endian byte string denotes a value below `256^len`.
pub proof fn lemma_le_bytes_bound(s: Seq<u8>)
    ensures
        0 <= le_bytes_int(s) < pow(256, s.len()),
    decreases s.len(),
{
    if s.len() == 0 {
        assert(pow(256, 0) == 1) by {
            vstd::arithmetic::power::lemma_pow0(256);
        }
    } else {
        reveal(pow);
        lemma_le_bytes_bound(s.drop_first());
        vstd::arithmetic::power::lemma_pow_positive(256, (s.len() - 1) as nat);
        assert(pow(256, s.len()) == 256 * pow(256, (s.len() - 1) as nat));
    }
}

/// Appending a byte adds it at the next power of 256.
pub proof fn lemma_le_bytes_push(s: Seq<u8>, b: u8)
    ensures
        le_bytes_int(s.push(b)) == le_bytes_int(s) + b * pow(256, s.len()),
    decreases s.len(),
{
    let p = s.push(b);
    reveal(pow);
    if s.len() == 0 {
        assert(p[0] == b);
        assert(p.drop_first() =~= Seq::<u8>::empty());
        assert(le_bytes_int(p.drop_first()) == 0);
        assert(le_bytes_int(p) == b);
        assert(le_bytes_int(s) == 0);
        assert(pow(256, 0) == 1) by {
            vstd::arithmetic::power::lemma_pow0(256);
        }
        assert(b * pow(256, s.len()) == b);
    } else {
        assert(p[0] == s[0]);
        assert(p.drop_first() =~= s.drop_first().push(b));
        lemma_le_bytes_push(s.drop_first(), b);
        let q = pow(256, (s.len() - 1) as nat);
        let rest = le_bytes_int(s.drop_first());
        assert(pow(256, s.len()) == 256 * q);
        assert(le_bytes_int(p) == s[0] + 256 * le_bytes_int(p.drop_first()));
        assert(le_bytes_int(p.drop_first()) == rest + b * q);
        assert(le_bytes_int(s) == s[0] + 256 * rest);
        assert(256 * (rest + b * q) == 256 * rest + b * (256 * q)) by (nonlinear_arith);
        assert(le_bytes_int(p) == le_bytes_int(s) + b * (256 * q));
    }
}

/// Decodes the field element a little-endian byte string denotes.  Strings
/// longer than `MAX_N_BYTES_INTEGER` could wrap in the field; that is a
/// circuit-author error, ruled out by the precondition.
pub fn from_bytes_value(bytes: &Vec<u8>) -> (r: Fp)
    requires
        bytes@.len() <= MAX_N_BYTES_INTEGER,
    ensures
        r.v == le_bytes_int(bytes@),
        r.reduced(),
{
    let mut acc: u64 = 0;
    let mut mult: u64 = 1;
    let n = bytes.len();
    let mut i: usize = 0;
    proof {
        vstd::arithmetic::power::lemma_pow0(256);
        assert(bytes@.subrange(0, 0) =~= Seq::<u8>::empty());
    }
    while i < n
        invariant
            i <= n <= MAX_N_BYTES_INTEGER,
            n == bytes@.len(),
            mult == pow(256, i as nat),
            acc == le_bytes_int(bytes@.subrange(0, i as int)),
            0 <= acc < pow(256, i as nat),
        decreases n - i,
    {
        proof {
            let pre = bytes@.subrange(0, i as int);
            let post = bytes@.subrange(0, i + 1);
            assert(post =~= pre.push(bytes@[i as int]));
            lemma_le_bytes_push(pre, bytes@[i as int]);
            vstd::arithmetic::power::lemma_pow_increases(256, i as nat, 6);
            assert(pow(256, 6) == 0x1000000000000) by {
                reveal_with_fuel(pow, 7);
            }
            assert(bytes@[i as int] as int * mult as int <= 255 * 0x1000000000000)
                by (nonlinear_arith)
                requires
                    bytes@[i as int] <= 255,
                    0 <= mult <= 0x1000000000000,
            ;
            reveal(pow);
            assert(pow(256, (i + 1) as nat) == 256 * pow(256, i as nat));
            lemma_le_bytes_bound(post);
        }
        acc = acc + (bytes[i] as u64) * mult;
        mult = mult * 256;
        i = i + 1;
    }
    proof {
        assert(bytes@.subrange(0, n as int) =~= bytes@);
        vstd::arithmetic::power::lemma_pow_increases(256, n as nat, 7);
        assert(pow(256, 7) == 0x100000000000000) by {
            reveal_with_fuel(pow, 8);
        }
        assert(acc < FIELD_MODULUS);
    }
    Fp { v: acc }
}

/// The expression decoding a little-endian tuple of byte expressions:
/// each byte scaled by the matching power of 256, summed left to right
/// from the constant 0.
pub open spec fn from_bytes_poly(s: Seq<Expr>) -> Expr
    decreases s.len(),
{
    if s.len() == 0 {
        Expr::Const(Fp { v: 0 })
    } else {
        Expr::Sum(
            Box::new(from_bytes_poly(s.drop_last())),
            Box::new(
                Expr::Scaled(
                    Box::new(s.last()),
                    Fp { v: (pow(256, (s.len() - 1) as nat) % (FIELD_MODULUS as int)) as u64 },
                ),
            ),
        )
    }
}

/// Builds the expression decoding a little-endian tuple of byte
/// expressions.
pub fn from_bytes_expr(bytes: &Vec<Expr>) -> (r: Expr)
    requires
        bytes@.len() <= MAX_N_BYTES_INTEGER,
    ensures
        r == from_bytes_poly(bytes@),
{
    let mut acc: Expr = Expr::constant(0);
    let mut mult: Fp = Fp::one();
    let n = bytes.len();
    let mut i: usize = 0;
    proof {
        vstd::arithmetic::power::lemma_pow0(256);
        vstd::arithmetic::div_mod::lemma_small_mod(1nat, FIELD_MODULUS as nat);
        assert(bytes@.subrange(0, 0) =~= Seq::<Expr>::empty());
    }
    while i < n
        invariant
            i <= n,
            n == bytes@.len(),
            mult.v == pow(256, i as nat) % (FIELD_MODULUS as int),
            mult.reduced(),
            acc == from_bytes_poly(bytes@.subrange(0, i as int)),
        decreases n - i,
    {
        proof {
            let pre = bytes@.subrange(0, i as int);
            let post = bytes@.subrange(0, i + 1);
            assert(post.drop_last() =~= pre);
            assert(post.last() == bytes@[i as int]);
            let m: int = FIELD_MODULUS as int;
            let p: int = pow(256, i as nat);
            vstd::arithmetic::div_mod::lemma_mul_mod_noop_left(p, 256, m);
            assert(((p % m) * 256) % m == (p * 256) % m);
            reveal(pow);
            assert(pow(256, (i + 1) as nat) == 256 * p);
        }
        acc = Expr::sum(acc, Expr::scaled(bytes[i].clone(), mult));
        mult = mult.mul(Fp { v: 256 });
        i = i + 1;
    }
    proof {
        assert(bytes@.subrange(0, n as int) =~= bytes@);
    }
    acc
}

} // verus!

