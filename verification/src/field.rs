//! The scalar field that expression constants and witness values live in.
//!
//! Elements are held in reduced form (a residue below the modulus) and all
//! operations are specified through the mathematical residue functions
//! `fadd`, `fmul`, `fneg` and `fsub`, so that contracts elsewhere can speak
//! of field arithmetic over `int`.

use vstd::prelude::*;

verus! {

use vstd::arithmetic::div_mod::lemma_small_mod;

/// The field modulus, a Mersenne prime small enough that products of two
/// reduced elements fit in a 128-bit intermediate.
pub const FIELD_MODULUS: u64 = 2305843009213693951;

/// The residue of `a` below the modulus.
pub open spec fn freduce(a: int) -> int {
    a % (FIELD_MODULUS as int)
}

/// Field addition of residues.
pub open spec fn fadd(a: int, b: int) -> int {
    (a + b) % (FIELD_MODULUS as int)
}

/// Field multiplication of residues.
pub open spec fn fmul(a: int, b: int) -> int {
    (a * b) % (FIELD_MODULUS as int)
}

/// The additive inverse of a residue.
pub open spec fn fneg(a: int) -> int {
    (FIELD_MODULUS as int - a % (FIELD_MODULUS as int)) % (FIELD_MODULUS as int)
}

/// Field subtraction of residues.
pub open spec fn fsub(a: int, b: int) -> int {
    fadd(a, fneg(b))
}

/// An element of the scalar field, stored as its canonical residue.
#[derive(Clone, Copy, Debug)]
pub struct Fp {
    pub v: u64,
}

impl Fp {
    /// Whether the element is in canonical (reduced) form.
    pub open spec fn reduced(self) -> bool {
        self.v < FIELD_MODULUS
    }

    /// The element with residue `x % FIELD_MODULUS`.
    pub fn new(x: u64) -> (r: Fp)
        ensures
            r.v == freduce(x as int),
            r.reduced(),
    {
        Fp { v: x % FIELD_MODULUS }
    }

    /// The additive identity.
    pub fn zero() -> (r: Fp)
        ensures
            r.v == 0,
            r.reduced(),
    {
        Fp { v: 0 }
    }

    /// The multiplicative identity.
    pub fn one() -> (r: Fp)
        ensures
            r.v == 1,
            r.reduced(),
    {
        Fp { v: 1 }
    }

    /// Field addition.
    pub fn add(self, other: Fp) -> (r: Fp)
        ensures
            r.v == fadd(self.v as int, other.v as int),
            r.reduced(),
    {
        let s: u128 = self.v as u128 + other.v as u128;
        let m: u128 = s % (FIELD_MODULUS as u128);
        proof {
            assert(m == (self.v + other.v) % (FIELD_MODULUS as int));
            assert(m < FIELD_MODULUS);
        }
        Fp { v: m as u64 }
    }

    /// Field multiplication.
    pub fn mul(self, other: Fp) -> (r: Fp)
        ensures
            r.v == fmul(self.v as int, other.v as int),
            r.reduced(),
    {
        proof {
            assert(self.v as u128 * other.v as u128 <= u128::MAX) by (nonlinear_arith)
                requires
                    self.v <= u64::MAX,
                    other.v <= u64::MAX,
            ;
        }
        let p: u128 = self.v as u128 * other.v as u128;
        let m: u128 = p % (FIELD_MODULUS as u128);
        proof {
            assert(m == (self.v * other.v) % (FIELD_MODULUS as int));
            assert(m < FIELD_MODULUS);
        }
        Fp { v: m as u64 }
    }

    /// Additive inverse.
    pub fn neg(self) -> (r: Fp)
        ensures
            r.v == fneg(self.v as int),
            r.reduced(),
    {
        let m: u64 = self.v % FIELD_MODULUS;
        let r: u64 = if m == 0 {
            0
        } else {
            FIELD_MODULUS - m
        };
        proof {
            if m == 0 {
                assert(FIELD_MODULUS as int % (FIELD_MODULUS as int) == 0);
            } else {
                lemma_small_mod((FIELD_MODULUS - m) as nat, FIELD_MODULUS as nat);
            }
        }
        Fp { v: r }
    }

    /// Field subtraction.
    pub fn sub(self, other: Fp) -> (r: Fp)
        ensures
            r.v == fsub(self.v as int, other.v as int),
            r.reduced(),
    {
        self.add(other.neg())
    }

    /// The canonical form of this element.
    pub fn reduce(self) -> (r: Fp)
        ensures
            r.v == freduce(self.v as int),
            r.reduced(),
    {
        Fp { v: self.v % FIELD_MODULUS }
    }

    /// The multiplicative inverse: the residue raised to
    /// `FIELD_MODULUS - 2`, with the product checked to be 1.  Zero has no
    /// inverse; for every nonzero residue the candidate succeeds because
    /// the modulus is prime, a number-theoretic fact outside these
    /// contracts — the check returns `None` rather than a wrong inverse.
    pub fn inverse(self) -> (r: Option<Fp>)
        ensures
            r is Some <==> (freduce(self.v as int) != 0 && fmul(
                self.v as int,
                inv_candidate(self.v as int),
            ) == 1),
            r is Some ==> {
                &&& r.unwrap().v == inv_candidate(self.v as int)
                &&& fmul(self.v as int, r.unwrap().v as int) == 1
                &&& r.unwrap().reduced()
            },
    {
        let a = self.reduce();
        if a.v == 0 {
            return None;
        }
        let ghost a0: int = a.v as int;
        let ghost e0: nat = (FIELD_MODULUS - 2) as nat;
        let mut result = Fp::one();
        let mut base = a;
        let mut e: u64 = FIELD_MODULUS - 2;
        proof {
            lemma_small_mod(pow_res(a0, e0) as nat, FIELD_MODULUS as nat);
            lemma_one_mul(pow_res(a0, e0));
        }
        while e > 0
            invariant
                result.reduced(),
                base.reduced(),
                fmul(result.v as int, pow_res(base.v as int, e as nat)) == pow_res(a0, e0),
            decreases e,
        {
            let ghost m: int = FIELD_MODULUS as int;
            let ghost b: int = base.v as int;
            let ghost rr: int = result.v as int;
            let ghost e2: nat = (e / 2) as nat;
            proof {
                vstd::arithmetic::div_mod::lemma_fundamental_div_mod(e as int, 2);
                vstd::arithmetic::power::lemma_pow_adds(b, (e % 2) as nat, (2 * e2) as nat);
                vstd::arithmetic::power::lemma_pow_multiplies(b, 2, e2);
                vstd::arithmetic::power::lemma_square_is_pow2(b);
                vstd::arithmetic::power::lemma_pow_mod_noop(b * b, e2, m);
                assert(pow_res((b * b) % m, e2) == vstd::arithmetic::power::pow(b, 2 * e2) % m);
                if e % 2 == 1 {
                    vstd::arithmetic::power::lemma_pow1(b);
                    let p2 = vstd::arithmetic::power::pow(b, 2 * e2);
                    assert(vstd::arithmetic::power::pow(b, e as nat) == b * p2);
                    vstd::arithmetic::div_mod::lemma_mul_mod_noop_general(rr * b, p2, m);
                    vstd::arithmetic::div_mod::lemma_mul_mod_noop_general(rr, b * p2, m);
                    assert(rr * (b * p2) == (rr * b) * p2) by (nonlinear_arith);
                } else {
                    vstd::arithmetic::power::lemma_pow0(b);
                    let p2 = vstd::arithmetic::power::pow(b, 2 * e2);
                    assert(vstd::arithmetic::power::pow(b, e as nat) == p2);
                    vstd::arithmetic::div_mod::lemma_mul_mod_noop_general(rr, p2, m);
                }
            }
            if e % 2 == 1 {
                result = result.mul(base);
            }
            base = base.mul(base);
            e = e / 2;
        }
        proof {
            vstd::arithmetic::power::lemma_pow0(base.v as int);
            lemma_small_mod(1nat, FIELD_MODULUS as nat);
            assert(pow_res(base.v as int, 0) == 1);
            lemma_one_mul(result.v as int);
            lemma_small_mod(result.v as nat, FIELD_MODULUS as nat);
            assert(result.v == pow_res(a0, e0));
        }
        let check = self.mul(result);
        if check.v == 1 {
            Some(result)
        } else {
            None
        }
    }
}

/// Every residue is canonical: in `[0, FIELD_MODULUS)`.
pub proof fn lemma_residue_bounds()
    ensures
        forall|a: int| 0 <= #[trigger] freduce(a) < FIELD_MODULUS,
{
}

/// Multiplying by one reduces.
pub proof fn lemma_one_mul(a: int)
    ensures
        fmul(1, a) == freduce(a),
        fmul(a, 1) == freduce(a),
{
}

/// Multiplying by zero vanishes.
pub proof fn lemma_zero_mul(a: int)
    ensures
        fmul(0, a) == 0,
        fmul(a, 0) == 0,
{
    lemma_small_mod(0nat, FIELD_MODULUS as nat);
}

/// Adding zero to a residue leaves it unchanged.
pub proof fn lemma_add_zero_left(a: int)
    ensures
        fadd(0, freduce(a)) == freduce(a),
{
    lemma_small_mod(freduce(a) as nat, FIELD_MODULUS as nat);
}

/// Adding zero to a residue leaves it unchanged.
pub proof fn lemma_add_zero_right(a: int)
    ensures
        fadd(freduce(a), 0) == freduce(a),
{
    lemma_small_mod(freduce(a) as nat, FIELD_MODULUS as nat);
}

/// `b^e` as a residue.
pub open spec fn pow_res(b: int, e: nat) -> int {
    vstd::arithmetic::power::pow(b, e) % (FIELD_MODULUS as int)
}

/// The inverse candidate for `a`: its residue raised to `FIELD_MODULUS - 2`.
/// For a prime modulus this is the multiplicative inverse of every nonzero
/// residue (a number-theoretic fact the crate does not prove; `Fp::inverse`
/// checks the product at run time instead of relying on it).
pub open spec fn inv_candidate(a: int) -> int {
    pow_res(freduce(a), (FIELD_MODULUS - 2) as nat)
}

/// Multiplication distributes over addition in the field.
pub proof fn lemma_fmul_distributes(a: int, b: int, r: int)
    ensures
        fmul(fadd(a, b), r) == fadd(fmul(a, r), fmul(b, r)),
{
    let m = FIELD_MODULUS as int;
    vstd::arithmetic::div_mod::lemma_mul_mod_noop_left(a + b, r, m);
    assert((a + b) * r == a * r + b * r) by (nonlinear_arith);
    vstd::arithmetic::div_mod::lemma_add_mod_noop(a * r, b * r, m);
}

/// Multiplication is associative in the field.
pub proof fn lemma_fmul_assoc(a: int, b: int, c: int)
    ensures
        fmul(fmul(a, b), c) == fmul(a, fmul(b, c)),
{
    let m = FIELD_MODULUS as int;
    vstd::arithmetic::div_mod::lemma_mul_mod_noop_left(a * b, c, m);
    vstd::arithmetic::div_mod::lemma_mul_mod_noop_right(a, b * c, m);
    assert((a * b) * c == a * (b * c)) by (nonlinear_arith);
}

/// Summands can be added in either order around a third.
pub proof fn lemma_fadd_rearrange(a: int, b: int, c: int)
    ensures
        fadd(fadd(a, b), c) == fadd(fadd(a, c), b),
{
    let m = FIELD_MODULUS as int;
    vstd::arithmetic::div_mod::lemma_add_mod_noop(a + b, c, m);
    vstd::arithmetic::div_mod::lemma_add_mod_noop(a + c, b, m);
    vstd::arithmetic::div_mod::lemma_mod_twice(a + b + c, m);
    assert(fadd(fadd(a, b), c) == ((a + b) % m + c % m) % m) by {
        vstd::arithmetic::div_mod::lemma_add_mod_noop(a + b, c, m);
    }
}

/// `2^by` as a field element.
pub fn pow_of_two(by: usize) -> (r: Fp)
    ensures
        r.v == vstd::arithmetic::power2::pow2(by as nat) as int % (FIELD_MODULUS as int),
        r.reduced(),
{
    let mut acc: Fp = Fp::one();
    let mut i: usize = 0;
    proof {
        assert(vstd::arithmetic::power2::pow2(0) == 1) by {
            vstd::arithmetic::power2::lemma2_to64();
        }
        lemma_small_mod(1nat, FIELD_MODULUS as nat);
    }
    while i < by
        invariant
            i <= by,
            acc.v == vstd::arithmetic::power2::pow2(i as nat) as int % (FIELD_MODULUS as int),
            acc.reduced(),
        decreases by - i,
    {
        proof {
            let m: int = FIELD_MODULUS as int;
            let p: int = vstd::arithmetic::power2::pow2(i as nat) as int;
            vstd::arithmetic::power2::lemma_pow2_unfold((i + 1) as nat);
            assert(vstd::arithmetic::power2::pow2((i + 1) as nat) == 2 * p);
            vstd::arithmetic::div_mod::lemma_mul_mod_noop_right(2, p, m);
            assert((2 * (p % m)) % m == (2 * p) % m);
        }
        acc = Fp { v: 2 }.mul(acc);
        i = i + 1;
    }
    acc
}

} // verus!
